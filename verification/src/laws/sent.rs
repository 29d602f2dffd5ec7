//! What a request is for: where its parameters end up.
use vstd::prelude::*;
use vstd::utf8::{decode_utf8, encode_utf8, valid_utf8};
use crate::client::{
    body_of, body_parts, fields_beside_body, header_added, headers_added, is_crowded, is_prepared,
    is_query, query_parts, query_text, request_error, sent_fields, started, target, then_added,
    with_fields, with_parameters, ClientView,
};
use crate::error::ErrorView;
use crate::form::form_text;
use crate::headers::{all_visible, has_room, is_header_name, is_header_value, is_visible, lists, Fields};
use crate::laws::{is_form_entry, law_form_is_read_back_as_sent};
use crate::outgoing::{are_lines_of, header_line, method_text, payload_of, PayloadView, PreparedRequest};
use crate::parameter::{ParameterType, ParameterView};
use crate::percent::{encoded_pair, url_encoded};
use crate::request::{
    all_simple, multipart_body, named_values, query_parameters, singular_body, url_parameters, Method,
    MultipartPartView, RequestBodyView,
};
use crate::response::{content_gives, Outcome};
use crate::text::{
    after, before, join_with, lemma_first_at, lemma_marked, lemma_unmarked, lower, split_on, trimmed_end,
};

verus! {

/// A named value for the query.
pub open spec fn for_query(name: Seq<char>, value: Seq<char>) -> ParameterView {
    ParameterView::Simple { name, value, param_type: ParameterType::Query }
}

/// A named value for the body.
pub open spec fn for_body(name: Seq<char>, value: Seq<char>) -> ParameterView {
    ParameterView::Simple { name, value, param_type: ParameterType::Body }
}

/// Whether a parameter is a named value for the query.
pub open spec fn queries(parameter: ParameterView) -> bool {
    parameter matches ParameterView::Simple { param_type: ParameterType::Query, .. }
}

/// A named value as it is written: encoded, with `=` before a value that is not
/// empty.
pub open spec fn written_pair(name: Seq<char>, value: Seq<char>) -> Seq<char> {
    if value.len() > 0 {
        url_encoded(name) + seq!['='] + url_encoded(value)
    } else {
        url_encoded(name)
    }
}

/// What is added to a text that may be empty: the pair alone if it is the first
/// one, a `&` and the pair else.
pub open spec fn with_pair(text: Seq<char>, is_first: bool, name: Seq<char>, value: Seq<char>) -> Seq<char> {
    if is_first {
        written_pair(name, value)
    } else {
        text + seq!['&'] + written_pair(name, value)
    }
}

/// A request starts with its method, its base URL and its parameters, and
/// without headers; it can be sent as a form if there is no file among them.
pub proof fn law_request_starts(base_url: Seq<char>, parameters: Seq<ParameterView>, method: Method)
    ensures
        started(base_url, parameters, method).method == method,
        started(base_url, parameters, method).base_url == base_url,
        started(base_url, parameters, method).fields == Fields::empty(),
        started(base_url, parameters, method).parameters == parameters,
        started(base_url, parameters, method).form_url_encoded <==> forall|i: int|
            0 <= i < parameters.len() ==> (#[trigger] parameters[i]) is Simple,
{
    lemma_all_simple(parameters);
}

proof fn lemma_all_simple(parameters: Seq<ParameterView>)
    ensures
        all_simple(parameters) <==> forall|i: int| 0 <= i < parameters.len() ==> (#[trigger] parameters[i]) is Simple,
{
    if all_simple(parameters) {
        assert forall|i: int| 0 <= i < parameters.len() implies (#[trigger] parameters[i]) is Simple by {
            assert(crate::request::is_simple(parameters[i]));
        }
    }
}

/// Parameters are added behind those that are there, nothing else of a request
/// changes, and a file among them rules out a form.
pub proof fn law_parameters_are_added(client: ClientView, more: Seq<ParameterView>)
    ensures
        with_parameters(client, more).parameters == client.parameters + more,
        with_parameters(client, more).method == client.method,
        with_parameters(client, more).base_url == client.base_url,
        with_parameters(client, more).fields == client.fields,
        with_parameters(client, more).form_url_encoded <==> client.form_url_encoded && forall|i: int|
            0 <= i < more.len() ==> (#[trigger] more[i]) is Simple,
{
    lemma_all_simple(more);
}

/// Replacing the headers of a request changes nothing else of it.
pub proof fn law_headers_are_replaced(client: ClientView, fields: Fields)
    ensures
        with_fields(client, fields).fields == fields,
        with_fields(client, fields).method == client.method,
        with_fields(client, fields).base_url == client.base_url,
        with_fields(client, fields).parameters == client.parameters,
        with_fields(client, fields).form_url_encoded == client.form_url_encoded,
{
}

/// Every parameter goes to one place, in order: a named value for the query into
/// the query, any other parameter into the body.
pub proof fn law_parameters_go_to_one_place(parameters: Seq<ParameterView>, last: ParameterView)
    ensures
        query_parts(Seq::empty()) == Seq::<ParameterView>::empty(),
        body_parts(Seq::empty()) == Seq::<ParameterView>::empty(),
        queries(last) ==> {
            &&& query_parts(parameters.push(last)) == query_parts(parameters).push(last)
            &&& body_parts(parameters.push(last)) == body_parts(parameters)
        },
        !queries(last) ==> {
            &&& query_parts(parameters.push(last)) == query_parts(parameters)
            &&& body_parts(parameters.push(last)) == body_parts(parameters).push(last)
        },
{
    reveal(Seq::filter);
    assert(parameters.push(last).drop_last() =~= parameters);
    assert(query_parts(Seq::empty()) =~= Seq::<ParameterView>::empty());
    assert(body_parts(Seq::empty()) =~= Seq::<ParameterView>::empty());
    assert(queries(last) == is_query(last));
}

/// A query grows at its end, by the named values that are for it and by nothing
/// else.
pub proof fn law_query_grows(parameters: Seq<ParameterView>, last: ParameterView)
    ensures
        query_text(Seq::empty()) == Seq::<char>::empty(),
        !queries(last) ==> query_text(parameters.push(last)) == query_text(parameters),
        last matches ParameterView::Simple { name, value, param_type: ParameterType::Query }
            ==> query_text(parameters.push(last)) == with_pair(
            query_text(parameters),
            forall|i: int| 0 <= i < parameters.len() ==> !queries(#[trigger] parameters[i]),
            name,
            value,
        ),
{
    law_parameters_go_to_one_place(parameters, last);
    assert(named_values(Seq::empty()) =~= Seq::<(Seq<char>, Seq<char>)>::empty());
    if let ParameterView::Simple { name, value, param_type: ParameterType::Query } = last {
        let pairs = named_values(query_parts(parameters));
        assert(named_values(query_parts(parameters).push(last)) =~= pairs.push((name, value)));
        law_form_grows(pairs, name, value);
        lemma_no_query(parameters);
    }
}

proof fn lemma_no_query(parameters: Seq<ParameterView>)
    ensures
        query_parts(parameters).len() == 0 <==> forall|i: int|
            0 <= i < parameters.len() ==> !queries(#[trigger] parameters[i]),
    decreases parameters.len(),
{
    if parameters.len() == 0 {
        law_parameters_go_to_one_place(parameters, for_body(Seq::empty(), Seq::empty()));
        assert(parameters =~= Seq::<ParameterView>::empty());
    } else {
        let front = parameters.drop_last();
        let last = parameters.last();
        assert(front.push(last) =~= parameters);
        law_parameters_go_to_one_place(front, last);
        lemma_no_query(front);
        if forall|i: int| 0 <= i < parameters.len() ==> !queries(#[trigger] parameters[i]) {
            assert(!queries(parameters[parameters.len() - 1]));
            assert forall|i: int| 0 <= i < front.len() implies !queries(#[trigger] front[i]) by {
                assert(front[i] == parameters[i]);
            }
        }
        if query_parts(parameters).len() == 0 {
            assert forall|i: int| 0 <= i < parameters.len() implies !queries(#[trigger] parameters[i]) by {
                if i < front.len() {
                    assert(front[i] == parameters[i]);
                }
            }
        }
    }
}

/// A form grows at its end, pair by pair.
pub proof fn law_form_grows(pairs: Seq<(Seq<char>, Seq<char>)>, name: Seq<char>, value: Seq<char>)
    ensures
        form_text(Seq::empty()) == Seq::<char>::empty(),
        form_text(pairs.push((name, value))) == with_pair(form_text(pairs), pairs.len() == 0, name, value),
{
    let write = |p: (Seq<char>, Seq<char>)| encoded_pair(p.0, p.1);
    let none = Seq::<(Seq<char>, Seq<char>)>::empty();
    let texts = pairs.map_values(write);
    let last = write((name, value));
    assert(none.map_values(write) =~= Seq::<Seq<char>>::empty());
    assert(last =~= written_pair(name, value));
    assert(pairs.push((name, value)).map_values(write) =~= texts.push(last));
    law_join_grows(texts, last, '&');
    assert(form_text(pairs).push('&') + last =~= form_text(pairs) + seq!['&'] + written_pair(name, value));
}

/// Joining puts a mark between what is there and what comes.
pub proof fn law_join_grows<T>(pieces: Seq<Seq<T>>, last: Seq<T>, mark: T)
    ensures
        join_with(pieces.push(last), mark) == if pieces.len() == 0 {
            last
        } else {
            join_with(pieces, mark).push(mark) + last
        },
{
    assert(pieces.push(last).drop_last() =~= pieces);
}

/// What goes into the body, and what the headers are, does not matter for the URL
/// of a request.
pub proof fn law_url_depends_on_query_only(client: ClientView, other: ParameterView, fields: Fields)
    requires
        !queries(other),
    ensures
        target(with_parameters(client, seq![other])) == target(client),
        target(with_fields(client, fields)) == target(client),
{
    assert(client.parameters + seq![other] =~= client.parameters.push(other));
    law_query_grows(client.parameters, other);
}

/// A named value that is added to the query stands at the end of the query, and
/// in front of the fragment, whatever else the request carries.
pub proof fn law_url_grows(client: ClientView, name: Seq<char>, value: Seq<char>)
    requires
        name.len() > 0 || value.len() > 0,
    ensures
        ({
            let longer = with_parameters(client, seq![for_query(name, value)]);
            let front = before(client.base_url, '#');
            let is_first = forall|i: int| 0 <= i < client.parameters.len() ==> !queries(#[trigger] client.parameters[i]);
            let query = with_pair(query_text(client.parameters), is_first, name, value);
            target(longer) == front + seq!['?'] + query + client.base_url.skip(front.len() as int)
        }),
        query_text(client.parameters).len() > 0 ==> target(client) == before(client.base_url, '#') + seq!['?']
            + query_text(client.parameters) + client.base_url.skip(before(client.base_url, '#').len() as int),
        query_text(client.parameters).len() == 0 ==> target(client) == client.base_url,
{
    let last = for_query(name, value);
    let front = before(client.base_url, '#');
    assert(client.parameters + seq![last] =~= client.parameters.push(last));
    law_query_grows(client.parameters, last);
    crate::form::lemma_encode_nonempty(name);
    crate::percent::lemma_percent_encoded_octets(encode_utf8(name));
    assert(written_pair(name, value).len() > 0);
    assert(front.push('?') =~= front + seq!['?']);
}

/// The parameters of a request without any: its URL is its base URL.
pub proof fn law_url_without_parameters(base_url: Seq<char>, method: Method)
    ensures
        target(started(base_url, Seq::empty(), method)) == base_url,
{
    law_query_grows(Seq::empty(), for_query(Seq::empty(), Seq::empty()));
}

/// A query that is taken over loses nothing: between its `&`s stand the names and,
/// behind the first `=`, the values.
pub proof fn law_query_is_cut_at_its_marks(query: Seq<char>)
    ensures
        exists|pieces: Seq<Seq<char>>|
            {
                &&& query == #[trigger] join_with(pieces, '&')
                &&& pieces.len() == query_parameters(query).len()
                &&& pieces.len() > 0
                &&& forall|i: int|
                    0 <= i < pieces.len() ==> {
                        &&& !(#[trigger] pieces[i]).contains('&')
                        &&& query_parameters(query)[i] == for_query(before(pieces[i], '='), after(pieces[i], '='))
                    }
            },
{
    let pieces = split_on(query, '&');
    lemma_split_on(query, '&');
    assert(query == join_with(pieces, '&'));
}

proof fn lemma_split_on<T>(s: Seq<T>, mark: T)
    ensures
        join_with(split_on(s, mark), mark) == s,
        split_on(s, mark).len() > 0,
        forall|i: int| 0 <= i < split_on(s, mark).len() ==> !(#[trigger] split_on(s, mark)[i]).contains(mark),
    decreases s.len(),
{
    lemma_first_at(s, mark);
    let pieces = split_on(s, mark);
    if s.contains(mark) {
        let front = before(s, mark);
        let rest = split_on(after(s, mark), mark);
        lemma_split_on(after(s, mark), mark);
        assert(pieces == seq![front] + rest);
        crate::text::lemma_join_first(pieces, mark);
        assert(pieces.skip(1) =~= rest);
        assert(s =~= front.push(mark) + after(s, mark));
        assert(!front.contains(mark));
        assert forall|i: int| 0 <= i < pieces.len() implies !(#[trigger] pieces[i]).contains(mark) by {
            if i > 0 {
                assert(pieces[i] == rest[i - 1]);
            }
        }
    }
}

/// The parameters of a URL stand behind its first `?`; without one there are none.
pub proof fn law_url_parameters(front: Seq<char>, query: Seq<char>)
    requires
        !front.contains('?'),
    ensures
        url_parameters(front) == Seq::<ParameterView>::empty(),
        url_parameters(front + seq!['?'] + query) == query_parameters(query),
        before(front + seq!['?'] + query, '?') == front,
        before(front, '?') == front,
{
    assert(front + seq!['?'] + query =~= front.push('?') + query);
    lemma_marked(front, '?', query);
    lemma_unmarked(front, '?');
}

/// What does not end in white space is not cut at its end.
pub proof fn law_only_white_space_is_ignored(url: Seq<char>)
    requires
        url.len() == 0 || !crate::text::is_white_space(url.last()),
    ensures
        trimmed_end(url) == url,
{
}

/// Whether parts carry parameters: one for each, in order. A named value is
/// carried under its name, as its UTF-8 octets and without a media type; a file
/// under its name with its octets and its media type.
pub open spec fn carry(parts: Seq<MultipartPartView>, parameters: Seq<ParameterView>) -> bool {
    &&& parts.len() == parameters.len()
    &&& forall|i: int|
        0 <= i < parameters.len() ==> match #[trigger] parameters[i] {
            ParameterView::Simple { name, value, .. } => {
                &&& parts[i].name == name
                &&& valid_utf8(parts[i].data)
                &&& decode_utf8(parts[i].data) == value
                &&& parts[i].mime_type is None
            },
            ParameterView::Complex { name, mime_type, content } => {
                &&& parts[i].name == name
                &&& parts[i].data == content
                &&& parts[i].mime_type == Some(mime_type)
            },
        }
}

/// A multipart body carries its parameters as they are.
pub proof fn law_parts_carry_parameters(parameters: Seq<ParameterView>)
    ensures
        multipart_body(parameters) matches RequestBodyView::Multipart(parts) && carry(parts, parameters),
{
    let parts = multipart_body(parameters)->Multipart_0;
    assert forall|i: int| 0 <= i < parameters.len() implies match #[trigger] parameters[i] {
        ParameterView::Simple { name, value, .. } => {
            &&& parts[i].name == name
            &&& valid_utf8(parts[i].data)
            &&& decode_utf8(parts[i].data) == value
            &&& parts[i].mime_type is None
        },
        ParameterView::Complex { name, mime_type, content } => {
            &&& parts[i].name == name
            &&& parts[i].data == content
            &&& parts[i].mime_type == Some(mime_type)
        },
    } by {
        if let ParameterView::Simple { value, .. } = parameters[i] {
            vstd::utf8::encode_utf8_valid_utf8(value);
            vstd::utf8::encode_utf8_decode_utf8(value);
        }
    }
}

/// A parameter that is sent alone is its octets, or its written pair, whatever the
/// headers are; they only decide whether its content type goes with it.
pub proof fn law_single_parameter(fields: Fields, parameter: ParameterView)
    ensures
        singular_body(fields, parameter) matches RequestBodyView::Raw { data, content_type } && {
            &&& parameter matches ParameterView::Simple { name, value, .. } ==> {
                &&& valid_utf8(data)
                &&& decode_utf8(data) == written_pair(name, value)
                &&& content_type == if fields.contains_key("content-type"@) {
                    None
                } else {
                    Some("application/x-www-form-urlencoded"@)
                }
            }
            &&& parameter matches ParameterView::Complex { mime_type, content, .. } ==> {
                &&& data == content
                &&& content_type == if fields.contains_key("content-type"@) {
                    None
                } else {
                    Some(mime_type)
                }
            }
        },
{
    if let ParameterView::Simple { name, value, .. } = parameter {
        let text = encoded_pair(name, value);
        assert(text =~= written_pair(name, value));
        vstd::utf8::encode_utf8_valid_utf8(text);
        vstd::utf8::encode_utf8_decode_utf8(text);
    }
}

/// What the body of a request is, by the number of parameters in it and by whether
/// the request can be sent as a form. The query and the method do not matter.
pub proof fn law_body_is_chosen(client: ClientView)
    ensures
        body_parts(client.parameters).len() == 1 ==> body_of(client) == singular_body(
            client.fields,
            body_parts(client.parameters)[0],
        ),
        body_parts(client.parameters).len() != 1 && client.form_url_encoded ==> body_of(client) is FormUrlEncoded,
        body_parts(client.parameters).len() != 1 && !client.form_url_encoded ==> (body_of(
            client,
        ) matches RequestBodyView::Multipart(parts) && carry(parts, body_parts(client.parameters))),
{
    law_parts_carry_parameters(body_parts(client.parameters));
}

/// The form that a request is sent as grows with every named value that is added
/// to the body, and with nothing else.
pub proof fn law_body_grows(client: ClientView, name: Seq<char>, value: Seq<char>)
    requires
        client.form_url_encoded,
        all_simple(client.parameters),
    ensures
        ({
            let longer = with_parameters(client, seq![for_body(name, value)]);
            let parts = body_parts(client.parameters);
            &&& parts.len() > 1 ==> (body_of(client) matches RequestBodyView::FormUrlEncoded(text)
                && body_of(longer) == RequestBodyView::FormUrlEncoded(with_pair(text, false, name, value)))
            &&& parts.len() == 1 ==> (parts[0] matches ParameterView::Simple { name: first, value: its, .. }
                && body_of(longer) == RequestBodyView::FormUrlEncoded(
                with_pair(written_pair(first, its), false, name, value),
            ))
            &&& parts.len() == 0 ==> body_of(client) == RequestBodyView::FormUrlEncoded(Seq::empty())
        }),
        ({
            let asked = with_parameters(client, seq![for_query(name, value)]);
            body_of(asked) == body_of(client)
        }),
{
    let last = for_body(name, value);
    let parts = body_parts(client.parameters);
    let pairs = named_values(parts);
    assert(client.parameters + seq![last] =~= client.parameters.push(last));
    assert(client.parameters + seq![for_query(name, value)] =~= client.parameters.push(for_query(name, value)));
    law_parameters_go_to_one_place(client.parameters, last);
    law_parameters_go_to_one_place(client.parameters, for_query(name, value));
    assert(all_simple(seq![last]));
    assert(all_simple(seq![for_query(name, value)]));
    assert(named_values(parts.push(last)) =~= pairs.push((name, value)));
    law_form_grows(pairs, name, value);
    crate::client::lemma_filter_simple(client.parameters, |p: ParameterView| crate::client::is_body(p));
    if parts.len() == 1 {
        assert(crate::request::is_simple(parts[0]));
        let first = named_values(parts)[0];
        assert(pairs =~= Seq::<(Seq<char>, Seq<char>)>::empty().push(first));
        law_form_grows(Seq::empty(), first.0, first.1);
    }
    if parts.len() == 0 {
        assert(pairs =~= Seq::<(Seq<char>, Seq<char>)>::empty());
    }
}

/// A payload carries a body: octets unchanged, unless there are none; the UTF-8
/// octets of a form; the parts of a multipart body unchanged.
pub proof fn law_payload_carries_body(body: RequestBodyView)
    ensures
        body matches RequestBodyView::Raw { data, .. } ==> {
            &&& data.len() > 0 ==> payload_of(body) == PayloadView::Fields(data)
            &&& data.len() == 0 ==> payload_of(body) == PayloadView::Nothing
        },
        body matches RequestBodyView::FormUrlEncoded(text) ==> (payload_of(body) matches PayloadView::Fields(octets)
            && valid_utf8(octets) && decode_utf8(octets) == text),
        body matches RequestBodyView::Multipart(parts) ==> payload_of(body) == PayloadView::Form(parts),
{
    if let RequestBodyView::FormUrlEncoded(text) = body {
        vstd::utf8::encode_utf8_valid_utf8(text);
        vstd::utf8::encode_utf8_decode_utf8(text);
    }
}

/// A prepared request goes to its URL, with its method, twenty seconds at most and
/// through ten redirections at most; only for `HEAD` no body is read back.
pub proof fn law_prepared_request(request: PreparedRequest, url: Seq<char>, client: ClientView)
    requires
        is_prepared(request, url, client),
    ensures
        request.url@ == url,
        client.method is GET ==> request.method@ == "GET"@,
        client.method is PUT ==> request.method@ == "PUT"@,
        client.method is POST ==> request.method@ == "POST"@,
        client.method is HEAD ==> request.method@ == "HEAD"@,
        client.method is DELETE ==> request.method@ == "DELETE"@,
        client.method is PATCH ==> request.method@ == "PATCH"@,
        request.head_only <==> client.method is HEAD,
        request.timeout_seconds == 20,
        request.follow_location,
        request.max_redirections == 10,
{
}

/// A form that is prepared to be sent is read back as the parameters in the body,
/// in order.
pub proof fn law_prepared_form_is_read_back(
    request: PreparedRequest,
    url: Seq<char>,
    client: ClientView,
    name: Seq<char>,
    r: Outcome,
)
    requires
        is_prepared(request, url, client),
        client.form_url_encoded,
        body_parts(client.parameters).len() != 1,
        forall|i: int|
            0 <= i < body_parts(client.parameters).len() ==> is_form_entry(#[trigger] body_parts(client.parameters)[i]),
    ensures
        request.payload@ is Fields,
        content_gives(name, "application/x-www-form-urlencoded"@, request.payload@->Fields_0, r) ==> r == Ok::<
            _,
            ErrorView,
        >(body_parts(client.parameters)),
{
    let parameters = body_parts(client.parameters);
    if content_gives(name, "application/x-www-form-urlencoded"@, request.payload@->Fields_0, r) {
        law_form_is_read_back_as_sent(parameters, name, r);
    }
}

/// A single parameter is sent as it is: a file as its octets, a named value as its
/// written pair.
pub proof fn law_prepared_parameter(
    request: PreparedRequest,
    url: Seq<char>,
    client: ClientView,
    parameter: ParameterView,
)
    requires
        is_prepared(request, url, client),
        body_parts(client.parameters) == seq![parameter],
    ensures
        parameter matches ParameterView::Complex { content, .. } ==> request.payload@ == if content.len() == 0 {
            PayloadView::Nothing
        } else {
            PayloadView::Fields(content)
        },
        parameter matches ParameterView::Simple { name, value, .. } ==> (name.len() > 0 || value.len() > 0 ==> (
        request.payload@ matches PayloadView::Fields(octets) && valid_utf8(octets) && decode_utf8(octets)
            == written_pair(name, value))),
{
    law_single_parameter(client.fields, parameter);
    if let ParameterView::Simple { name, value, .. } = parameter {
        let text = encoded_pair(name, value);
        assert(text =~= written_pair(name, value));
        crate::form::lemma_encode_nonempty(name);
        crate::percent::lemma_percent_encoded_octets(encode_utf8(name));
        crate::form::lemma_encode_nonempty(text);
    }
}

/// Several parameters with a file among them are sent as parts that carry them.
pub proof fn law_prepared_parts(request: PreparedRequest, url: Seq<char>, client: ClientView)
    requires
        is_prepared(request, url, client),
        !client.form_url_encoded,
        body_parts(client.parameters).len() != 1,
    ensures
        request.payload@ matches PayloadView::Form(parts) && carry(parts, body_parts(client.parameters)),
{
    law_parts_carry_parameters(body_parts(client.parameters));
}

/// The header lines of a prepared request: one for each value of each header that
/// is sent, the name, a colon, a space and the value.
pub proof fn law_prepared_headers(request: PreparedRequest, url: Seq<char>, client: ClientView)
    requires
        is_prepared(request, url, client),
    ensures
        exists|pairs: Seq<(Seq<char>, Seq<u8>)>|
            {
                &&& #[trigger] lists(pairs, sent_fields(client))
                &&& request.header_lines@.len() == pairs.len()
                &&& forall|i: int|
                    0 <= i < pairs.len() ==> (#[trigger] request.header_lines@[i])@ == pairs[i].0 + ": "@
                        + pairs[i].1.map_values(|b: u8| b as char)
            },
{
    let lines = request.header_lines@.map_values(|line: String| line@);
    law_header_lines(lines, sent_fields(client));
    let pairs = choose|pairs: Seq<(Seq<char>, Seq<u8>)>|
        {
            &&& #[trigger] lists(pairs, sent_fields(client))
            &&& lines.len() == pairs.len()
            &&& forall|i: int|
                0 <= i < pairs.len() ==> (#[trigger] lines[i]) == pairs[i].0 + ": "@ + pairs[i].1.map_values(
                    |b: u8| b as char,
                )
        };
    assert forall|i: int| 0 <= i < pairs.len() implies (#[trigger] request.header_lines@[i])@ == pairs[i].0 + ": "@
        + pairs[i].1.map_values(|b: u8| b as char) by {
        assert(lines[i] == request.header_lines@[i]@);
    }
}

/// The lines of some headers: one for each value of each, the name, a colon, a
/// space and the value.
pub proof fn law_header_lines(lines: Seq<Seq<char>>, fields: Fields)
    requires
        are_lines_of(lines, fields),
    ensures
        exists|pairs: Seq<(Seq<char>, Seq<u8>)>|
            {
                &&& #[trigger] lists(pairs, fields)
                &&& lines.len() == pairs.len()
                &&& forall|i: int|
                    0 <= i < pairs.len() ==> (#[trigger] lines[i]) == pairs[i].0 + ": "@ + pairs[i].1.map_values(
                        |b: u8| b as char,
                    )
            },
{
    let pairs = choose|pairs: Seq<(Seq<char>, Seq<u8>)>| #[trigger]
        lists(pairs, fields) && lines == pairs.map_values(|p: (Seq<char>, Seq<u8>)| header_line(p.0, p.1));
    assert forall|i: int| 0 <= i < pairs.len() implies (#[trigger] lines[i]) == pairs[i].0 + ": "@
        + pairs[i].1.map_values(|b: u8| b as char) by {
        assert(lines[i] == header_line(pairs[i].0, pairs[i].1));
        assert(header_line(pairs[i].0, pairs[i].1) =~= pairs[i].0 + ": "@ + pairs[i].1.map_values(|b: u8| b as char));
    }
    assert(lists(pairs, fields));
}

/// Making the body takes a content type of the caller's own away, unless one
/// parameter is sent as it is; no other header is touched.
pub proof fn law_headers_beside_body(client: ClientView)
    ensures
        fields_beside_body(client) == if body_parts(client.parameters).len() == 1 {
            client.fields
        } else {
            client.fields.remove("content-type"@)
        },
{
}

/// A request is refused for its headers if and only if one that is sent is not
/// visible ASCII: for its content type if that is no header value at all.
pub proof fn law_request_is_refused(client: ClientView)
    ensures
        request_error(client) is None ==> all_visible(sent_fields(client)),
        all_visible(sent_fields(client)) ==> request_error(client) is None,
        request_error(client) == Some(ErrorView::InvalidHeaderValue) ==> {
            &&& sent_fields(client).contains_key("content-type"@)
            &&& exists|i: int|
                0 <= i < sent_fields(client)["content-type"@].len() && !is_header_value(
                    #[trigger] sent_fields(client)["content-type"@][i],
                )
        },
        request_error(client) matches Some(e) ==> e == ErrorView::InvalidHeaderValue || e == ErrorView::ToStringError,
        request_error(client) == Some(ErrorView::ToStringError) ==> !all_visible(sent_fields(client)),
        is_crowded(client) ==> !has_room(fields_beside_body(client)) && sent_fields(client).contains_key(
            "content-type"@,
        ),
{
    let fields = sent_fields(client);
    if request_error(client) == Some(ErrorView::InvalidHeaderValue) {
        let value = fields["content-type"@][0];
        assert(!is_header_value(value));
        if all_visible(fields) {
            assert(is_visible(fields["content-type"@][0]));
            assert(is_header_value(value));
        }
    }
}

/// Adding a header gives it this one value, in small letters of its name. A name
/// that is none changes nothing; a value that is not visible ASCII takes away what
/// was there; and only want of room can refuse any other.
pub proof fn law_header_is_added(
    fields: Fields,
    name: Seq<char>,
    value: Seq<char>,
    error: Option<ErrorView>,
    result: Fields,
)
    requires
        header_added(fields, name, value, error, result),
    ensures
        error is None ==> {
            &&& is_header_name(name)
            &&& is_visible(encode_utf8(value))
            &&& result == fields.insert(lower(name), seq![encode_utf8(value)])
        },
        !is_header_name(name) ==> error == Some(ErrorView::InvalidHeaderName) && result == fields,
        is_header_name(name) && !is_visible(encode_utf8(value)) ==> {
            &&& error == Some(ErrorView::InvalidHeaderValue)
            &&& result == fields.remove(lower(name))
        },
        is_header_name(name) && is_visible(encode_utf8(value)) && error is Some ==> {
            &&& error == Some(ErrorView::TooManyHeaders)
            &&& !has_room(fields.remove(lower(name)))
            &&& result == fields.remove(lower(name))
        },
{
}

/// Headers are added one after the other: no headers change nothing; up to the
/// first error each is added to what the others left; behind it nothing happens.
pub proof fn law_headers_are_added_in_order(
    fields: Fields,
    pairs: Seq<(Seq<char>, Seq<char>)>,
    last: (Seq<char>, Seq<char>),
    error: Option<ErrorView>,
    result: Fields,
)
    ensures
        headers_added(fields, Seq::empty(), error, result) <==> error is None && result == fields,
        headers_added(fields, pairs.push(last), error, result) <==> {
            ||| error is Some && headers_added(fields, pairs, error, result)
            ||| exists|between: Fields| #[trigger]
                headers_added(fields, pairs, None, between) && header_added(between, last.0, last.1, error, result)
        },
{
    let all = pairs.push(last);
    assert(all.drop_last() =~= pairs);
    if headers_added(fields, all, error, result) {
        let (between, earlier) = choose|between: Fields, earlier: Option<ErrorView>|
            {
                &&& headers_added(fields, all.drop_last(), earlier, between)
                &&& #[trigger] then_added(between, earlier, all.last(), error, result)
            };
        if earlier is None {
            assert(headers_added(fields, pairs, None, between));
        }
    }
    if error is Some && headers_added(fields, pairs, error, result) {
        assert(then_added(result, error, all.last(), error, result));
    }
    if exists|between: Fields| #[trigger]
        headers_added(fields, pairs, None, between) && header_added(between, last.0, last.1, error, result) {
        let between = choose|between: Fields| #[trigger]
            headers_added(fields, pairs, None, between) && header_added(between, last.0, last.1, error, result);
        assert(then_added(between, None, all.last(), error, result));
    }
}

/// A content type of the library's own that is no header value is refused as such,
/// whatever other headers there are.
pub proof fn law_content_type_is_refused(client: ClientView, own: Seq<char>)
    requires
        body_of(client) matches RequestBodyView::Raw { content_type: Some(content_type), .. } && content_type == own,
    ensures
        !is_header_value(encode_utf8(own)) <==> request_error(client) == Some(ErrorView::InvalidHeaderValue),
{
}

/// What is handed to the transfer is what the body of the request carries.
pub proof fn law_prepared_body(request: PreparedRequest, url: Seq<char>, client: ClientView)
    requires
        is_prepared(request, url, client),
    ensures
        body_of(client) matches RequestBodyView::Raw { data, .. } ==> request.payload@ == if data.len() == 0 {
            PayloadView::Nothing
        } else {
            PayloadView::Fields(data)
        },
        body_of(client) matches RequestBodyView::FormUrlEncoded(text) ==> (request.payload@ matches PayloadView::Fields(
            octets,
        ) && valid_utf8(octets) && decode_utf8(octets) == text),
        body_of(client) matches RequestBodyView::Multipart(parts) ==> request.payload@ == PayloadView::Form(parts),
{
    law_payload_carries_body(body_of(client));
}

/// A named value is written as its encoded name and, if it is not empty, a `=` and
/// its encoded value.
pub proof fn law_pair_is_written(name: Seq<char>, value: Seq<char>)
    ensures
        encoded_pair(name, value) == written_pair(name, value),
{
    assert(encoded_pair(name, value) =~= written_pair(name, value));
}

/// The named values of parameters are their names and their values, in order.
pub proof fn law_named_values(parameters: Seq<ParameterView>, i: int)
    ensures
        named_values(parameters).len() == parameters.len(),
        0 <= i < parameters.len() ==> (parameters[i] matches ParameterView::Simple { name, value, .. }
            ==> named_values(parameters)[i] == (name, value)),
{
}

/// A method is written out under its name.
pub proof fn law_methods_are_written_out()
    ensures
        method_text(Method::GET) == "GET"@,
        method_text(Method::PUT) == "PUT"@,
        method_text(Method::POST) == "POST"@,
        method_text(Method::HEAD) == "HEAD"@,
        method_text(Method::DELETE) == "DELETE"@,
        method_text(Method::PATCH) == "PATCH"@,
{
}

} // verus!
