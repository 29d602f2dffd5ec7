//! What holds of the library as a whole.
pub mod received;
pub mod sent;
pub mod views;

use vstd::prelude::*;
use vstd::utf8::{decode_utf8, encode_utf8, is_ascii_chars, valid_utf8};
use crate::client::{
    body_of, body_parts, header_added, header_error, headers_added, is_body, is_query,
    lemma_all_simple_concat, query_parts, query_text, sent_fields, started, target, then_added, walks,
    with_parameters, with_query, ClientView,
};
use crate::error::ErrorView;
use crate::laws::sent::{carry, law_parts_carry_parameters};
use crate::form::{
    form_pairs, form_text, law_form_is_read_back, lemma_encode_nonempty, lemma_filter_all, pair_views,
};
use crate::headers::{
    all_visible, field_values, has_room, is_header_name, is_header_value, is_token_char, is_visible, Fields,
};
use crate::media_type::{essence, mime_boundary, top_level};
use crate::outgoing::header_line;
use crate::parameter::{ParameterType, ParameterView};
use crate::parts::{ended, lemma_longest, lemma_longest_skip, longest, may_be_read, PartView};
use crate::percent::{
    ascii_text, encoded_pair, is_form_char, is_plain_char, is_unreserved, lemma_encode_ascii_text,
    lemma_percent_encoded_octets, percent_encoded, url_encoded,
};
use crate::request::{
    all_simple, is_form_text, is_kept, is_simple, is_web_url, multipart_part, named_value,
    named_values, query_parameters, singular_body, url_parameters,
    url_text, Method, RequestBodyView,
};
use crate::response::{
    body_parameters, content_gives, default_media_type, followed,
    found_media_type, found_name, is_form, is_multipart, last_texts, part_gives, part_headers,
    parts_give, HeadersView, Outcome,
};
use crate::text::{
    after, before, first_at, is_white_space, join_with, lemma_first_at, lemma_first_at_is,
    lemma_marked, lemma_split_join, lemma_unmarked, lower, trimmed, trimmed_end,
};
use crate::transfer::{event_gives, is_status_line, line_gives, CollectorView, Event};

verus! {

/// Whether a parameter is a named value for the body, with a name or a value
/// that is not empty.
pub open spec fn is_form_entry(parameter: ParameterView) -> bool {
    parameter matches ParameterView::Simple { name, value, param_type } && {
        &&& param_type is Body
        &&& name.len() > 0 || value.len() > 0
    }
}

/// A form that is sent is read back as the parameters that were written into
/// it, for parameters of which none has both an empty name and an empty value.
pub proof fn law_form_is_read_back_as_sent(parameters: Seq<ParameterView>, name: Seq<char>, r: Outcome)
    requires
        forall|i: int| 0 <= i < parameters.len() ==> is_form_entry(#[trigger] parameters[i]),
        content_gives(name, "application/x-www-form-urlencoded"@, encode_utf8(form_text(named_values(parameters))), r),
    ensures
        r == Ok::<_, ErrorView>(parameters),
{
    let pairs = named_values(parameters);
    let read = form_pairs(encode_utf8(form_text(pairs)));
    lemma_form_content_type();
    assert forall|i: int| 0 <= i < pairs.len() implies (#[trigger] pairs[i]).0.len() > 0 || pairs[i].1.len() > 0 by {
        assert(is_form_entry(parameters[i]));
    }
    law_form_is_read_back(pairs, read);
    assert forall|i: int| 0 <= i < parameters.len() implies body_parameters(read)[i] == parameters[i] by {
        assert(is_form_entry(parameters[i]));
        assert(pairs[i] == named_value(parameters[i]));
    }
    assert(body_parameters(read) =~= parameters);
}

/// A named value that is sent alone, without a content type of the caller's own,
/// is read back.
pub proof fn law_single_value_is_read_back(fields: Fields, parameter: ParameterView, name: Seq<char>, r: Outcome)
    requires
        is_form_entry(parameter),
        !fields.contains_key("content-type"@),
        singular_body(fields, parameter) matches RequestBodyView::Raw { data, content_type: Some(content_type) }
            && content_gives(name, content_type, data, r),
    ensures
        r == Ok::<_, ErrorView>(seq![parameter]),
{
    let parameters = seq![parameter];
    let texts = named_values(parameters).map_values(|p: (Seq<char>, Seq<char>)| encoded_pair(p.0, p.1));
    assert(texts.len() == 1);
    assert(form_text(named_values(parameters)) == texts[0]);
    law_form_is_read_back_as_sent(parameters, name, r);
}

/// A file that is sent alone, without a content type of the caller's own, is
/// read back under the name that the headers of the response give it, unless
/// its media type is that of a form or of content that is made of parts.
pub proof fn law_single_file_is_read_back(
    fields: Fields,
    name: Seq<char>,
    mime_type: Seq<char>,
    content: Seq<u8>,
    found: Seq<char>,
    r: Outcome,
)
    requires
        before(mime_type, ';') != "application/x-www-form-urlencoded"@,
        before(mime_type, '/') != "multipart"@,
        !fields.contains_key("content-type"@),
        singular_body(fields, ParameterView::Complex { name, mime_type, content }) matches RequestBodyView::Raw {
            data,
            content_type: Some(content_type),
        } && content_gives(found, content_type, data, r),
    ensures
        r == Ok::<_, ErrorView>(seq![ParameterView::Complex { name: found, mime_type, content }]),
{
}

proof fn lemma_form_content_type()
    ensures
        !is_multipart("application/x-www-form-urlencoded"@),
        is_form("application/x-www-form-urlencoded"@),
{
    let text = "application/x-www-form-urlencoded"@;
    reveal_strlit("application/x-www-form-urlencoded");
    reveal_strlit("multipart");
    lemma_first_at_is(text, '/', 11);
    assert(top_level(text)[0] == 'a');
    assert(!text.contains(';'));
    lemma_unmarked(text, ';');
}

/// Named values as parameters of a query.
pub open spec fn in_query(pairs: Seq<(Seq<char>, Seq<char>)>) -> Seq<ParameterView> {
    pairs.map_values(
        |p: (Seq<char>, Seq<char>)|
            ParameterView::Simple { name: p.0, value: p.1, param_type: ParameterType::Query },
    )
}

/// A named value as it stands in a query that is not encoded.
pub open spec fn plain_pair(name: Seq<char>, value: Seq<char>) -> Seq<char> {
    if value.len() == 0 {
        name
    } else {
        name.push('=') + value
    }
}

/// A query that is not encoded.
pub open spec fn plain_query(pairs: Seq<(Seq<char>, Seq<char>)>) -> Seq<char> {
    join_with(pairs.map_values(|p: (Seq<char>, Seq<char>)| plain_pair(p.0, p.1)), '&')
}

/// Whether a named value can stand in a query that is not encoded.
pub open spec fn is_plain(pair: (Seq<char>, Seq<char>)) -> bool {
    &&& !pair.0.contains('&')
    &&& !pair.0.contains('=')
    &&& !pair.1.contains('&')
}

/// A query that is not encoded is taken over value by value.
pub proof fn law_query_is_taken_over(pairs: Seq<(Seq<char>, Seq<char>)>)
    requires
        pairs.len() > 0,
        forall|i: int| 0 <= i < pairs.len() ==> is_plain(#[trigger] pairs[i]),
    ensures
        query_parameters(plain_query(pairs)) == in_query(pairs),
{
    let texts = pairs.map_values(|p: (Seq<char>, Seq<char>)| plain_pair(p.0, p.1));
    assert forall|i: int| 0 <= i < texts.len() implies !(#[trigger] texts[i]).contains('&') by {
        assert(is_plain(pairs[i]));
    }
    lemma_split_join(texts, '&');
    assert forall|i: int| 0 <= i < pairs.len() implies {
        &&& before(#[trigger] texts[i], '=') == pairs[i].0
        &&& after(texts[i], '=') == pairs[i].1
    } by {
        assert(is_plain(pairs[i]));
        let (name, value) = pairs[i];
        if value.len() == 0 {
            lemma_unmarked(name, '=');
            assert(value =~= Seq::<char>::empty());
        } else {
            lemma_marked(name, '=', value);
        }
    }
    assert(query_parameters(plain_query(pairs)) =~= in_query(pairs));
}

/// A request to a URL with a query that is not encoded is sent to the base URL
/// with the same named values, encoded.
pub proof fn law_query_is_encoded(
    front: Seq<char>,
    pairs: Seq<(Seq<char>, Seq<char>)>,
    base_url: Seq<char>,
    method: Method,
)
    requires
        !front.contains('?'),
        pairs.len() > 0,
        forall|i: int| 0 <= i < pairs.len() ==> is_plain(#[trigger] pairs[i]),
    ensures
        before(front.push('?') + plain_query(pairs), '?') == front,
        target(started(base_url, url_parameters(front.push('?') + plain_query(pairs)), method)) == with_query(
            base_url,
            form_text(pairs),
        ),
{
    lemma_marked(front, '?', plain_query(pairs));
    law_query_is_taken_over(pairs);
    let parameters = in_query(pairs);
    assert(url_parameters(front.push('?') + plain_query(pairs)) == parameters);
    lemma_filter_all(parameters, |p: ParameterView| is_query(p));
    assert(named_values(parameters) =~= pairs);
}

/// A query that was encoded is taken over with every name and every value
/// encoded: nothing is decoded on the way in.
pub proof fn law_encoded_query_stays_encoded(pairs: Seq<(Seq<char>, Seq<char>)>)
    requires
        pairs.len() > 0,
    ensures
        query_parameters(form_text(pairs)) == in_query(
            pairs.map_values(|p: (Seq<char>, Seq<char>)| (url_encoded(p.0), url_encoded(p.1))),
        ),
{
    let encoded = pairs.map_values(|p: (Seq<char>, Seq<char>)| (url_encoded(p.0), url_encoded(p.1)));
    let texts = pairs.map_values(|p: (Seq<char>, Seq<char>)| encoded_pair(p.0, p.1));
    let plain = encoded.map_values(|p: (Seq<char>, Seq<char>)| plain_pair(p.0, p.1));
    assert forall|i: int| 0 <= i < pairs.len() implies is_plain(#[trigger] encoded[i]) by {
        lemma_encoded_is_plain(pairs[i].0);
        lemma_encoded_is_plain(pairs[i].1);
    }
    assert forall|i: int| 0 <= i < pairs.len() implies texts[i] == plain[i] by {
        lemma_encoded_is_plain(pairs[i].1);
    }
    assert(texts =~= plain);
    law_query_is_taken_over(encoded);
}

/// What is encoded holds no mark of a query, and is empty only for nothing.
proof fn lemma_encoded_is_plain(text: Seq<char>)
    ensures
        !url_encoded(text).contains('&'),
        !url_encoded(text).contains('='),
        url_encoded(text).len() == 0 <==> text.len() == 0,
{
    let octets = percent_encoded(encode_utf8(text));
    lemma_percent_encoded_octets(encode_utf8(text));
    lemma_encode_nonempty(text);
    assert forall|i: int| 0 <= i < octets.len() implies url_encoded(text)[i] != '&' && url_encoded(text)[i] != '=' by {
        assert(octets[i] == 0x25u8 || is_unreserved(octets[i]));
    }
}

/// Whether a text is not changed by being encoded.
pub open spec fn is_plain_text(text: Seq<char>) -> bool {
    forall|i: int| 0 <= i < text.len() ==> is_plain_char(#[trigger] text[i])
}

proof fn lemma_encoded_chars(text: Seq<char>)
    ensures
        forall|i: int| 0 <= i < url_encoded(text).len() ==> is_form_char(#[trigger] url_encoded(text)[i]),
{
    let octets = percent_encoded(encode_utf8(text));
    lemma_percent_encoded_octets(encode_utf8(text));
    assert forall|i: int| 0 <= i < octets.len() implies is_form_char(#[trigger] url_encoded(text)[i]) by {
        assert(octets[i] == 0x25u8 || is_unreserved(octets[i]));
    }
}

proof fn lemma_form_chars(pairs: Seq<(Seq<char>, Seq<char>)>)
    ensures
        forall|i: int| 0 <= i < form_text(pairs).len() ==> is_form_char(#[trigger] form_text(pairs)[i]),
    decreases pairs.len(),
{
    let texts = pairs.map_values(|p: (Seq<char>, Seq<char>)| encoded_pair(p.0, p.1));
    if pairs.len() > 0 {
        let last = pairs.last();
        lemma_encoded_chars(last.0);
        lemma_encoded_chars(last.1);
        assert(texts.last() == encoded_pair(last.0, last.1));
        assert forall|i: int| 0 <= i < texts.last().len() implies is_form_char(#[trigger] texts.last()[i]) by {
            let name = url_encoded(last.0);
            if i < name.len() {
                assert(texts.last()[i] == name[i]);
            } else if i > name.len() {
                assert(texts.last()[i] == url_encoded(last.1)[i - name.len() - 1]);
            }
        }
        if pairs.len() > 1 {
            let front = pairs.drop_last();
            lemma_form_chars(front);
            assert(front.map_values(|p: (Seq<char>, Seq<char>)| encoded_pair(p.0, p.1)) =~= texts.drop_last());
            let before_last = form_text(front);
            assert(form_text(pairs) == before_last.push('&') + texts.last());
            assert forall|i: int| 0 <= i < form_text(pairs).len() implies is_form_char(
                #[trigger] form_text(pairs)[i],
            ) by {
                if i < before_last.len() {
                    assert(form_text(pairs)[i] == before_last[i]);
                } else if i > before_last.len() {
                    assert(form_text(pairs)[i] == texts.last()[i - before_last.len() - 1]);
                }
            }
        } else {
            assert(form_text(pairs) == texts.last());
        }
    }
}

/// The query of a request stands in front of the fragment, which stays as it is.
pub proof fn law_query_stands_before_fragment(client: ClientView)
    requires
        query_text(client.parameters).len() > 0,
    ensures
        before(target(client), '#') == before(client.base_url, '#').push('?') + query_text(client.parameters),
        after(target(client), '#') == after(client.base_url, '#'),
        target(client).contains('#') == client.base_url.contains('#'),
{
    let base = client.base_url;
    let query = query_text(client.parameters);
    let pairs = named_values(query_parts(client.parameters));
    let front = before(base, '#').push('?') + query;
    lemma_form_chars(pairs);
    lemma_first_at(base, '#');
    assert forall|i: int| 0 <= i < front.len() implies front[i] != '#' by {
        if i < before(base, '#').len() {
            assert(front[i] == base[i]);
        } else if i > before(base, '#').len() {
            assert(is_form_char(query[i - before(base, '#').len() - 1]));
        }
    }
    assert(!front.contains('#'));
    if base.contains('#') {
        assert(target(client) =~= front.push('#') + after(base, '#'));
        lemma_marked(front, '#', after(base, '#'));
    } else {
        lemma_unmarked(base, '#');
        assert(target(client) =~= front);
        lemma_unmarked(front, '#');
    }
}

proof fn lemma_plain_char_is_ascii(c: char)
    requires
        is_plain_char(c),
    ensures
        '\0' <= c <= '\u{7f}',
{
}

/// A text of which no character is changed by being encoded is not changed.
proof fn lemma_plain_text(text: Seq<char>)
    requires
        is_plain_text(text),
    ensures
        url_encoded(text) == text,
{
    let octets = encode_utf8(text);
    assert(is_ascii_chars(text)) by {
        assert forall|i: int| 0 <= i < text.len() implies '\0' <= #[trigger] text[i] <= '\u{7f}' by {
            lemma_plain_char_is_ascii(text[i]);
        }
    }
    vstd::utf8::is_ascii_chars_encode_utf8(text);
    assert forall|i: int| 0 <= i < octets.len() implies is_unreserved(#[trigger] octets[i]) by {
        assert(is_plain_char(text[i]));
    }
    lemma_unreserved_octets(octets);
    assert(ascii_text(octets) =~= text);
}

proof fn lemma_unreserved_octets(octets: Seq<u8>)
    requires
        forall|i: int| 0 <= i < octets.len() ==> is_unreserved(#[trigger] octets[i]),
    ensures
        percent_encoded(octets) == octets,
    decreases octets.len(),
{
    if octets.len() > 0 {
        let rest = octets.skip(1);
        assert forall|i: int| 0 <= i < rest.len() implies is_unreserved(#[trigger] rest[i]) by {
            assert(rest[i] == octets[i + 1]);
        }
        lemma_unreserved_octets(rest);
        assert(is_unreserved(octets[0]));
        assert(percent_encoded(octets) =~= octets);
    } else {
        assert(percent_encoded(octets) =~= octets);
    }
}

/// Whether a pair is not changed by being encoded.
pub open spec fn is_plain_pair(pair: (Seq<char>, Seq<char>)) -> bool {
    is_plain_text(pair.0) && is_plain_text(pair.1)
}

/// A URL that was put together is put together again if a request is started
/// with it: it falls into the same base URL and the same query, provided that
/// names and values need no encoding, that the base URL has neither query nor
/// fragment, and that there is no white space at its end.
pub proof fn law_url_is_put_together_again(client: ClientView, method: Method)
    requires
        !client.base_url.contains('?'),
        !client.base_url.contains('#'),
        trimmed_end(client.base_url) == client.base_url,
        forall|i: int|
            0 <= i < client.parameters.len() && is_query(client.parameters[i]) ==> is_plain_pair(
                named_value(#[trigger] client.parameters[i]),
            ),
    ensures
        trimmed_end(target(client)) == target(client),
        before(target(client), '?') == client.base_url,
        target(started(client.base_url, url_parameters(target(client)), method)) == target(client),
{
    let base = client.base_url;
    let pred = |p: ParameterView| is_query(p);
    let chosen = query_parts(client.parameters);
    let pairs = named_values(chosen);
    let query = query_text(client.parameters);
    lemma_unmarked(base, '#');
    lemma_chosen_plain(client.parameters);
    if query.len() == 0 {
        lemma_unmarked(base, '?');
        let none = Seq::<ParameterView>::empty();
        reveal(Seq::filter);
        assert(none.filter(pred) =~= none);
        assert(named_values(none) =~= Seq::<(Seq<char>, Seq<char>)>::empty());
        assert(query_text(none).len() == 0);
    } else {
        assert(target(client) =~= base.push('?') + query);
        lemma_marked(base, '?', query);
        lemma_form_chars(pairs);
        assert(is_form_char(query[query.len() - 1]));
        assert(target(client).last() == query[query.len() - 1]);
        if pairs.len() == 0 {
            assert(form_text(pairs).len() == 0);
        }
        law_encoded_query_stays_encoded(pairs);
        let encoded = pairs.map_values(|p: (Seq<char>, Seq<char>)| (url_encoded(p.0), url_encoded(p.1)));
        assert forall|i: int| 0 <= i < pairs.len() implies encoded[i] == pairs[i] by {
            assert(is_plain_pair(named_value(chosen[i])));
            lemma_plain_text(pairs[i].0);
            lemma_plain_text(pairs[i].1);
        }
        assert(encoded =~= pairs);
        let parameters = in_query(pairs);
        lemma_filter_all(parameters, pred);
        assert(named_values(parameters) =~= pairs);
    }
}

/// A URL that was generated for `http` or `https` is generated again by a request
/// that is started with it, if names and values need no encoding and the base
/// URL has no fragment and no name that was encoded for the host.
pub proof fn law_url_is_generated_again(client: ClientView, url: Seq<char>, again: ClientView, method: Method)
    requires
        !client.base_url.contains('?'),
        is_kept(client.base_url),
        is_web_url(client.base_url),
        forall|i: int|
            0 <= i < client.parameters.len() && is_query(client.parameters[i]) ==> is_plain_pair(
                named_value(#[trigger] client.parameters[i]),
            ),
        url_text(target(client)) == Some(url),
        url_text(before(trimmed_end(url), '?')) == Some(again.base_url),
        again == started(again.base_url, url_parameters(trimmed_end(url)), method),
    ensures
        url_text(target(again)) == Some(url),
{
    let base = client.base_url;
    let query = query_text(client.parameters);
    law_url_is_put_together_again(client, method);
    lemma_unmarked(base, '#');
    lemma_form_chars(named_values(query_parts(client.parameters)));
    if query.len() > 0 {
        assert(target(client) =~= base.push('?') + query);
        assert(is_form_text(query));
    }
    assert(url == target(client));
}

proof fn lemma_chosen_plain(parameters: Seq<ParameterView>)
    requires
        forall|i: int|
            0 <= i < parameters.len() && is_query(parameters[i]) ==> is_plain_pair(named_value(#[trigger] parameters[i])),
    ensures
        forall|i: int|
            0 <= i < query_parts(parameters).len() ==> is_plain_pair(
                named_value(#[trigger] query_parts(parameters)[i]),
            ),
    decreases parameters.len(),
{
    reveal(Seq::filter);
    if parameters.len() > 0 {
        let front = parameters.drop_last();
        assert forall|i: int| 0 <= i < front.len() && is_query(front[i]) implies is_plain_pair(
            named_value(#[trigger] front[i]),
        ) by {
            assert(front[i] == parameters[i]);
        }
        lemma_chosen_plain(front);
        let last = parameters[parameters.len() - 1];
        let chosen = query_parts(front);
        assert(is_query(last) ==> is_plain_pair(named_value(last)));
        assert forall|i: int| 0 <= i < query_parts(parameters).len() implies is_plain_pair(
            named_value(#[trigger] query_parts(parameters)[i]),
        ) by {
            if i < chosen.len() {
                assert(query_parts(parameters)[i] == chosen[i]);
            } else {
                assert(query_parts(parameters)[i] == last);
            }
        }
    }
}

/// White space at the end of a URL does not matter.
pub proof fn law_trailing_white_space_is_ignored(url: Seq<char>, c: char)
    requires
        is_white_space(c),
    ensures
        trimmed_end(url.push(c)) == trimmed_end(url),
{
    assert(url.push(c).drop_last() =~= url);
}

/// Whether a client knows of the files that it holds: it is sent as a form if
/// and only if it holds none.
pub open spec fn knows_its_files(client: ClientView) -> bool {
    client.form_url_encoded == all_simple(client.parameters)
}

/// A client knows of its files from the start, and adding parameters keeps it
/// so.
pub proof fn law_files_are_known(
    base_url: Seq<char>,
    first: Seq<ParameterView>,
    method: Method,
    client: ClientView,
    more: Seq<ParameterView>,
)
    requires
        knows_its_files(client),
    ensures
        knows_its_files(started(base_url, first, method)),
        knows_its_files(with_parameters(client, more)),
{
    lemma_all_simple_concat(client.parameters, more);
}

/// How a request is sent. One parameter in the body is sent as it is. Several
/// named values are sent as a form. Of several parameters with a file among them
/// each is sent as a part.
pub proof fn law_kind_of_body(client: ClientView)
    requires
        knows_its_files(client),
    ensures
        body_parts(client.parameters).len() == 1 ==> body_of(client) is Raw,
        body_parts(client.parameters).len() != 1 && all_simple(body_parts(client.parameters)) ==> body_of(client)
            == RequestBodyView::FormUrlEncoded(form_text(named_values(body_parts(client.parameters)))),
        body_parts(client.parameters).len() != 1 && !all_simple(body_parts(client.parameters)) ==> (body_of(
            client,
        ) matches RequestBodyView::Multipart(parts) && carry(parts, body_parts(client.parameters)) && parts
            == body_parts(client.parameters).map_values(|p: ParameterView| multipart_part(p))),
{
    lemma_files_go_into_body(client.parameters);
    if body_parts(client.parameters).len() != 1 && !all_simple(body_parts(client.parameters)) {
        law_parts_carry_parameters(body_parts(client.parameters));
    }
}

/// Files go into the body: parameters are all simple if those in the body are.
proof fn lemma_files_go_into_body(parameters: Seq<ParameterView>)
    ensures
        all_simple(body_parts(parameters)) == all_simple(parameters),
    decreases parameters.len(),
{
    reveal(Seq::filter);
    if parameters.len() > 0 {
        let front = parameters.drop_last();
        let last = parameters.last();
        lemma_files_go_into_body(front);
        assert(parameters =~= front + seq![last]);
        lemma_all_simple_concat(front, seq![last]);
        lemma_all_simple_one(last);
        if is_body(last) {
            assert(body_parts(parameters) =~= body_parts(front) + seq![last]);
            lemma_all_simple_concat(body_parts(front), seq![last]);
        } else {
            assert(body_parts(parameters) =~= body_parts(front));
        }
    }
}

proof fn lemma_all_simple_one(parameter: ParameterView)
    ensures
        all_simple(seq![parameter]) == is_simple(parameter),
{
    assert(all_simple(seq![parameter]) ==> is_simple(seq![parameter][0]));
}

/// The content type that is sent. With one parameter in the body it is that of
/// the caller, or of the parameter if the caller set none. A form has its own.
/// That of a multipart body is left to the transfer. No other header is touched.
pub proof fn law_content_type(client: ClientView)
    ensures
        sent_fields(client).remove("content-type"@) == client.fields.remove("content-type"@),
        body_of(client) is Raw && client.fields.contains_key("content-type"@) ==> sent_fields(client)
            == client.fields,
        body_of(client) is Raw && !client.fields.contains_key("content-type"@) ==> sent_fields(
            client,
        )["content-type"@] == seq![
            encode_utf8(
                match body_parts(client.parameters)[0] {
                    ParameterView::Simple { .. } => "application/x-www-form-urlencoded"@,
                    ParameterView::Complex { mime_type, .. } => mime_type,
                },
            ),
        ],
        body_of(client) is FormUrlEncoded ==> sent_fields(client)["content-type"@] == seq![
            encode_utf8("application/x-www-form-urlencoded"@),
        ],
        body_of(client) is Multipart ==> !sent_fields(client).contains_key("content-type"@),
{
    let name = "content-type"@;
    assert(sent_fields(client).remove(name) =~= client.fields.remove(name));
}

/// Of two headers with names that differ at most in case the second one counts.
pub proof fn law_last_header_counts(
    fields: Fields,
    first: (Seq<char>, Seq<char>),
    second: (Seq<char>, Seq<char>),
    between: Fields,
    result: Fields,
)
    requires
        lower(first.0) == lower(second.0),
        header_added(fields, first.0, first.1, None, between),
        header_added(between, second.0, second.1, None, result),
    ensures
        header_added(fields, second.0, second.1, None, result),
        result[lower(first.0)] == seq![encode_utf8(second.1)],
{
    assert(result =~= fields.insert(lower(second.0), seq![encode_utf8(second.1)]));
}

/// Adding a header leaves the others alone, whether it succeeds or not.
pub proof fn law_other_headers_stay(
    fields: Fields,
    name: Seq<char>,
    value: Seq<char>,
    error: Option<ErrorView>,
    result: Fields,
    other: Seq<char>,
)
    requires
        header_added(fields, name, value, error, result),
        other != lower(name),
    ensures
        result.contains_key(other) == fields.contains_key(other),
        fields.contains_key(other) ==> result[other] == fields[other],
{
}

/// Headers with nothing wrong with them, of which no two have the same name, are
/// all added, in whatever order; only want of room can stop them. Others stay.
pub proof fn law_all_headers_are_added(
    fields: Fields,
    pairs: Seq<(Seq<char>, Seq<char>)>,
    error: Option<ErrorView>,
    result: Fields,
)
    requires
        forall|i: int| 0 <= i < pairs.len() ==> header_error((#[trigger] pairs[i]).0, pairs[i].1) is None,
        forall|i: int, j: int|
            0 <= i < j < pairs.len() ==> lower((#[trigger] pairs[i]).0) != lower((#[trigger] pairs[j]).0),
        headers_added(fields, pairs, error, result),
    ensures
        error is None || error == Some(ErrorView::TooManyHeaders),
        error is None ==> forall|i: int|
            0 <= i < pairs.len() ==> result.contains_key(lower((#[trigger] pairs[i]).0)) && result[lower(
                pairs[i].0,
            )] == seq![encode_utf8(pairs[i].1)],
        forall|other: Seq<char>|
            (forall|i: int| 0 <= i < pairs.len() ==> lower((#[trigger] pairs[i]).0) != other)
                ==> result.contains_key(other) == #[trigger] fields.contains_key(other) && (fields.contains_key(
                other,
            ) ==> result[other] == fields[other]),
    decreases pairs.len(),
{
    if pairs.len() > 0 {
        let front = pairs.drop_last();
        let last = pairs.last();
        let (between, earlier) = choose|between: Fields, earlier: Option<ErrorView>|
            {
                &&& headers_added(fields, front, earlier, between)
                &&& #[trigger] then_added(between, earlier, last, error, result)
            };
        assert forall|i: int| 0 <= i < front.len() implies header_error((#[trigger] front[i]).0, front[i].1) is None by {
            assert(front[i] == pairs[i]);
        }
        assert forall|i: int, j: int| 0 <= i < j < front.len() implies lower((#[trigger] front[i]).0) != lower(
            (#[trigger] front[j]).0,
        ) by {
            assert(front[i] == pairs[i] && front[j] == pairs[j]);
        }
        law_all_headers_are_added(fields, front, earlier, between);
        assert(header_error(pairs[pairs.len() - 1].0, pairs[pairs.len() - 1].1) is None);
        if error is None {
            assert forall|i: int| 0 <= i < pairs.len() implies result.contains_key(lower((#[trigger] pairs[i]).0))
                && result[lower(pairs[i].0)] == seq![encode_utf8(pairs[i].1)] by {
                if i < front.len() {
                    assert(front[i] == pairs[i]);
                    assert(lower(pairs[i].0) != lower(pairs[pairs.len() - 1].0));
                }
            }
        }
        assert forall|other: Seq<char>|
            (forall|i: int| 0 <= i < pairs.len() ==> lower((#[trigger] pairs[i]).0) != other) implies result.contains_key(
            other,
        ) == #[trigger] fields.contains_key(other) && (fields.contains_key(other) ==> result[other] == fields[other]) by {
            assert(lower(pairs[pairs.len() - 1].0) != other);
            assert forall|i: int| 0 <= i < front.len() implies lower((#[trigger] front[i]).0) != other by {
                assert(front[i] == pairs[i]);
            }
        }
    }
}

/// Where no error comes of adding headers, nothing is wrong with any of them.
proof fn lemma_nothing_wrong(fields: Fields, pairs: Seq<(Seq<char>, Seq<char>)>, result: Fields)
    requires
        headers_added(fields, pairs, None, result),
    ensures
        forall|i: int| 0 <= i < pairs.len() ==> header_error((#[trigger] pairs[i]).0, pairs[i].1) is None,
    decreases pairs.len(),
{
    if pairs.len() > 0 {
        let front = pairs.drop_last();
        let (between, earlier) = choose|between: Fields, earlier: Option<ErrorView>|
            {
                &&& headers_added(fields, front, earlier, between)
                &&& #[trigger] then_added(between, earlier, pairs.last(), None, result)
            };
        lemma_nothing_wrong(fields, front, between);
        assert forall|i: int| 0 <= i < pairs.len() implies header_error((#[trigger] pairs[i]).0, pairs[i].1) is None by {
            if i < front.len() {
                assert(front[i] == pairs[i]);
            }
        }
    }
}

/// A list with a header with which something is wrong is refused, for a name or a
/// value, if not for want of room.
pub proof fn law_wrong_headers_are_refused(
    fields: Fields,
    pairs: Seq<(Seq<char>, Seq<char>)>,
    wrong: int,
    error: Option<ErrorView>,
    result: Fields,
)
    requires
        0 <= wrong < pairs.len(),
        header_error(pairs[wrong].0, pairs[wrong].1) is Some,
        headers_added(fields, pairs, error, result),
    ensures
        ({
            ||| error == Some(ErrorView::InvalidHeaderName)
            ||| error == Some(ErrorView::InvalidHeaderValue)
            ||| error == Some(ErrorView::TooManyHeaders)
        }),
{
    if error is None {
        lemma_nothing_wrong(fields, pairs, result);
    }
    lemma_kinds_of_refusal(fields, pairs, error, result);
}

proof fn lemma_kinds_of_refusal(
    fields: Fields,
    pairs: Seq<(Seq<char>, Seq<char>)>,
    error: Option<ErrorView>,
    result: Fields,
)
    requires
        headers_added(fields, pairs, error, result),
    ensures
        ({
            ||| error is None
            ||| error == Some(ErrorView::InvalidHeaderName)
            ||| error == Some(ErrorView::InvalidHeaderValue)
            ||| error == Some(ErrorView::TooManyHeaders)
        }),
    decreases pairs.len(),
{
    if pairs.len() > 0 {
        let (between, earlier) = choose|between: Fields, earlier: Option<ErrorView>|
            {
                &&& headers_added(fields, pairs.drop_last(), earlier, between)
                &&& #[trigger] then_added(between, earlier, pairs.last(), error, result)
            };
        lemma_kinds_of_refusal(fields, pairs.drop_last(), earlier, between);
    }
}

/// Headers that are not listed stay, whether all that are listed are added or
/// not.
pub proof fn law_unlisted_headers_stay(
    fields: Fields,
    pairs: Seq<(Seq<char>, Seq<char>)>,
    error: Option<ErrorView>,
    result: Fields,
    other: Seq<char>,
)
    requires
        forall|i: int| 0 <= i < pairs.len() ==> lower((#[trigger] pairs[i]).0) != other,
        headers_added(fields, pairs, error, result),
    ensures
        result.contains_key(other) == fields.contains_key(other),
        fields.contains_key(other) ==> result[other] == fields[other],
    decreases pairs.len(),
{
    if pairs.len() > 0 {
        let front = pairs.drop_last();
        let (between, earlier) = choose|between: Fields, earlier: Option<ErrorView>|
            {
                &&& headers_added(fields, front, earlier, between)
                &&& #[trigger] then_added(between, earlier, pairs.last(), error, result)
            };
        assert forall|i: int| 0 <= i < front.len() implies lower((#[trigger] front[i]).0) != other by {
            assert(front[i] == pairs[i]);
        }
        assert(lower(pairs[pairs.len() - 1].0) != other);
        law_unlisted_headers_stay(fields, front, earlier, between, other);
    }
}

/// Visible octets are the octets of the text that they spell.
proof fn lemma_visible_text(text: Seq<char>)
    requires
        is_visible(encode_utf8(text)),
    ensures
        ascii_text(encode_utf8(text)) == text,
{
    let octets = encode_utf8(text);
    lemma_encode_ascii_text(octets);
    vstd::utf8::encode_utf8_decode_utf8(text);
    vstd::utf8::encode_utf8_decode_utf8(ascii_text(octets));
}

/// Headers that are added from a map whose names are in small letters to a
/// request without any come back as that map.
pub proof fn law_headers_of_a_map_come_back(map: Map<String, String>, pairs: Seq<(String, String)>, fields: Fields)
    requires
        forall|name: String| #[trigger] map.contains_key(name) ==> lower(name@) == name@,
        walks(pairs, map),
        headers_added(Map::empty(), pair_views(pairs), None, fields),
    ensures
        all_visible(fields),
        forall|name: String| #[trigger]
            map.contains_key(name) ==> last_texts(fields).contains_key(name@) && last_texts(fields)[name@]
                == map[name]@,
        forall|name: Seq<char>| #[trigger]
            last_texts(fields).contains_key(name) ==> exists|key: String| #[trigger]
                map.contains_key(key) && key@ == name,
{
    let views = pair_views(pairs);
    let none = Map::<Seq<char>, Seq<Seq<u8>>>::empty();
    assert forall|i: int| 0 <= i < views.len() implies lower((#[trigger] views[i]).0) == views[i].0 by {
        assert(map.contains_key(pairs[i].0));
    }
    assert forall|i: int, j: int| 0 <= i < j < views.len() implies lower((#[trigger] views[i]).0) != lower(
        (#[trigger] views[j]).0,
    ) by {
        assert(pairs[i].0@ != pairs[j].0@);
    }
    lemma_nothing_wrong(none, views, fields);
    law_all_headers_are_added(none, views, None, fields);
    assert forall|name: Seq<char>| #[trigger] fields.contains_key(name) implies exists|i: int|
        0 <= i < views.len() && (#[trigger] views[i]).0 == name by {
        if forall|i: int| 0 <= i < views.len() ==> (#[trigger] views[i]).0 != name {
            assert forall|i: int| 0 <= i < views.len() implies lower((#[trigger] views[i]).0) != name by {}
            assert(!none.contains_key(name));
        }
    }
    assert forall|i: int| 0 <= i < views.len() implies {
        &&& fields.contains_key((#[trigger] views[i]).0)
        &&& fields[views[i].0] == seq![encode_utf8(views[i].1)]
        &&& is_visible(encode_utf8(views[i].1))
        &&& last_texts(fields)[views[i].0] == views[i].1
    } by {
        assert(header_error(views[i].0, views[i].1) is None);
        lemma_visible_text(views[i].1);
    }
    assert forall|name: Seq<char>, j: int|
        fields.contains_key(name) && 0 <= j < fields[name].len() implies is_visible(#[trigger] fields[name][j]) by {
        let i = choose|i: int| 0 <= i < views.len() && (#[trigger] views[i]).0 == name;
        assert(fields[name] == seq![encode_utf8(views[i].1)]);
    }
    assert forall|name: String| #[trigger] map.contains_key(name) implies last_texts(fields).contains_key(name@)
        && last_texts(fields)[name@] == map[name]@ by {
        let i = choose|i: int| 0 <= i < pairs.len() && (#[trigger] pairs[i]).0 == name;
        assert(views[i] == (pairs[i].0@, pairs[i].1@));
        assert(map[pairs[i].0] == pairs[i].1);
    }
    assert forall|name: Seq<char>| #[trigger] last_texts(fields).contains_key(name) implies exists|key: String|
        #[trigger] map.contains_key(key) && key@ == name by {
        assert(fields.contains_key(name));
        let i = choose|i: int| 0 <= i < views.len() && (#[trigger] views[i]).0 == name;
        assert(map.contains_key(pairs[i].0) && pairs[i].0@ == name);
    }
}

/// The one file that content becomes that is neither a form nor made of parts.
/// It keeps the name of the part, unless that is empty, its media type, if it has
/// one, and its data.
pub open spec fn file_of(part: PartView) -> ParameterView {
    ParameterView::Complex {
        name: if part.name.len() == 0 {
            "result"@
        } else {
            part.name
        },
        mime_type: match part.content_type {
            Some(media_type) => media_type,
            None => "application/octet-stream"@,
        },
        content: part.data,
    }
}

/// Whether a part is neither a form nor made of parts, by the text of its media
/// type; a part without one is neither.
pub open spec fn is_flat(part: PartView) -> bool {
    part.content_type matches Some(media_type) ==> {
        &&& before(media_type, '/') != "multipart"@
        &&& before(media_type, ';') != "application/x-www-form-urlencoded"@
    }
}

/// A multipart body is split into its parts: one file for each, in order.
pub proof fn law_parts_become_files(parts: Seq<PartView>, failed: bool, r: Outcome)
    requires
        forall|i: int| 0 <= i < parts.len() ==> is_flat(#[trigger] parts[i]),
        parts_give(parts, failed, r),
    ensures
        r == if failed {
            Err::<Seq<ParameterView>, _>(ErrorView::FileError)
        } else {
            Ok(parts.map_values(|p: PartView| file_of(p)))
        },
    decreases parts.len(),
{
    let files = parts.map_values(|p: PartView| file_of(p));
    if parts.len() == 0 {
        assert(files =~= Seq::<ParameterView>::empty());
    } else {
        let (first, rest) = choose|first: Outcome, rest: Outcome|
            {
                &&& r == #[trigger] followed(first, rest)
                &&& part_gives(part_headers(parts[0]), parts[0].data, first)
                &&& first is Ok ==> parts_give(parts.skip(1), failed, rest)
            };
        assert(is_flat(parts[0]));
        lemma_flat_part(parts[0], first);
        let others = parts.skip(1);
        assert forall|i: int| 0 <= i < others.len() implies is_flat(#[trigger] others[i]) by {
            assert(others[i] == parts[i + 1]);
        }
        law_parts_become_files(others, failed, rest);
        assert(seq![file_of(parts[0])] + others.map_values(|p: PartView| file_of(p)) =~= files);
    }
}

proof fn lemma_flat_part(part: PartView, r: Outcome)
    requires
        is_flat(part),
        part_gives(part_headers(part), part.data, r),
    ensures
        r == Ok::<_, ErrorView>(seq![file_of(part)]),
{
    lemma_default_is_flat();
}

/// A response that says nothing of its content is one file of octets.
pub proof fn law_content_without_headers(fields: Fields, body: Seq<u8>, r: Outcome)
    requires
        !fields.contains_key("content-id"@),
        !fields.contains_key("content-type"@),
        part_gives(HeadersView::HeaderMap(fields), body, r),
    ensures
        r == Ok::<_, ErrorView>(
            seq![
                ParameterView::Complex {
                    name: "result"@,
                    mime_type: "application/octet-stream"@,
                    content: body,
                },
            ],
        ),
{
    lemma_default_is_flat();
}

proof fn lemma_default_is_flat()
    ensures
        !is_multipart(default_media_type()),
        !is_form(default_media_type()),
{
    let text = default_media_type();
    reveal_strlit("application/octet-stream");
    reveal_strlit("multipart");
    reveal_strlit("application/x-www-form-urlencoded");
    lemma_first_at(text, '/');
    lemma_first_at(text, ';');
    lemma_first_at_is(text, '/', 11);
    assert(top_level(text)[0] == 'a');
    assert(!text.contains(';'));
    lemma_unmarked(text, ';');
    assert(essence(text).len() == 24);
}

/// A body of up to 8192 octets can be read in one way only, however deep its
/// parts are nested.
pub proof fn law_content_is_read_in_one_way(
    name: Seq<char>,
    media_type: Seq<char>,
    body: Seq<u8>,
    one: Outcome,
    other: Outcome,
)
    requires
        body.len() <= 8192,
        content_gives(name, media_type, body, one),
        content_gives(name, media_type, body, other),
    ensures
        one == other,
    decreases body.len(), 1nat, 0nat,
{
    if is_multipart(media_type) && mime_boundary(media_type) is Some {
        let boundary = mime_boundary(media_type)->0;
        let (parts, failed) = choose|parts: Seq<PartView>, failed: bool| #[trigger]
            may_be_read(body, boundary, parts, failed) && parts_give(parts, failed, one);
        let (parts2, failed2) = choose|parts: Seq<PartView>, failed: bool| #[trigger]
            may_be_read(body, boundary, parts, failed) && parts_give(parts, failed, other);
        lemma_ended_is_unique(parts, failed, parts2, failed2);
        lemma_parts_are_read_in_one_way(parts, failed, one, other);
    }
}

proof fn lemma_ended_is_unique(parts: Seq<PartView>, failed: bool, parts2: Seq<PartView>, failed2: bool)
    requires
        ended(parts, failed) == ended(parts2, failed2),
    ensures
        parts == parts2,
        failed == failed2,
{
    let found = ended(parts, failed);
    let found2 = ended(parts2, failed2);
    if failed {
        assert(found[found.len() - 1] is None);
    }
    if failed2 {
        assert(found2[found2.len() - 1] is None);
    }
    if failed && !failed2 {
        assert(found2[found2.len() - 1] == Some(parts2[found2.len() - 1]));
    }
    if failed2 && !failed {
        assert(found[found.len() - 1] == Some(parts[found.len() - 1]));
    }
    assert forall|i: int| 0 <= i < parts.len() implies parts[i] == parts2[i] by {
        assert(found[i] == Some(parts[i]));
        assert(found2[i] == Some(parts2[i]));
    }
    assert(parts =~= parts2);
}

proof fn lemma_parts_are_read_in_one_way(parts: Seq<PartView>, failed: bool, one: Outcome, other: Outcome)
    requires
        longest(parts) <= 8192,
        parts_give(parts, failed, one),
        parts_give(parts, failed, other),
    ensures
        one == other,
    decreases longest(parts), 0nat, parts.len(),
{
    if parts.len() > 0 {
        let (first, rest) = choose|first: Outcome, rest: Outcome|
            {
                &&& one == #[trigger] followed(first, rest)
                &&& part_gives(part_headers(parts[0]), parts[0].data, first)
                &&& first is Ok ==> parts_give(parts.skip(1), failed, rest)
            };
        let (first2, rest2) = choose|first: Outcome, rest: Outcome|
            {
                &&& other == #[trigger] followed(first, rest)
                &&& part_gives(part_headers(parts[0]), parts[0].data, first)
                &&& first is Ok ==> parts_give(parts.skip(1), failed, rest)
            };
        lemma_longest(parts, 0);
        lemma_longest_skip(parts);
        let headers = part_headers(parts[0]);
        law_content_is_read_in_one_way(
            found_name(headers)->Ok_0,
            found_media_type(headers)->Ok_0,
            parts[0].data,
            first,
            first2,
        );
        if first is Ok {
            lemma_parts_are_read_in_one_way(parts.skip(1), failed, rest, rest2);
        }
    }
}

/// Whether a response in the making goes through `states`, from the first to the
/// last, as `events` come in.
pub open spec fn goes_through(states: Seq<CollectorView>, events: Seq<Event>) -> bool {
    &&& states.len() == events.len() + 1
    &&& forall|i: int| 0 <= i < events.len() ==> event_gives(states[i], #[trigger] events[i], states[i + 1])
}

/// The blocks of the body among some events, one behind the other.
pub open spec fn blocks(events: Seq<Event>) -> Seq<u8>
    decreases events.len(),
{
    if events.len() == 0 {
        Seq::empty()
    } else {
        match events.last() {
            Event::Header(_) => blocks(events.drop_last()),
            Event::Body(block) => blocks(events.drop_last()) + block,
        }
    }
}

/// The body of a response is all of its blocks, in order, whatever lines come
/// between them.
pub proof fn law_body_is_complete(states: Seq<CollectorView>, events: Seq<Event>)
    requires
        goes_through(states, events),
    ensures
        states.last().body == states[0].body + blocks(events),
    decreases events.len(),
{
    if events.len() == 0 {
        assert(states[0].body + Seq::<u8>::empty() =~= states[0].body);
    } else {
        let front = events.drop_last();
        lemma_goes_through_front(states, events);
        law_body_is_complete(states.drop_last(), front);
        let n = front.len() as int;
        assert(event_gives(states[n], events[n], states[n + 1]));
        assert(states[0].body + blocks(front) + events[n]->Body_0 =~= states[0].body + (blocks(front)
            + events[n]->Body_0));
    }
}

proof fn lemma_goes_through_front(states: Seq<CollectorView>, events: Seq<Event>)
    requires
        goes_through(states, events),
        events.len() > 0,
    ensures
        goes_through(states.drop_last(), events.drop_last()),
{
    let front = events.drop_last();
    assert forall|i: int| 0 <= i < front.len() implies event_gives(
        states.drop_last()[i],
        #[trigger] front[i],
        states.drop_last()[i + 1],
    ) by {
        assert(front[i] == events[i]);
    }
}

/// The first error that a line gives is kept to the end, and so are the headers
/// at that point.
pub proof fn law_first_error_is_kept(states: Seq<CollectorView>, events: Seq<Event>, at: int)
    requires
        goes_through(states, events),
        0 <= at < states.len(),
        states[at].error is Some,
    ensures
        states.last().error == states[at].error,
        states.last().fields == states[at].fields,
    decreases events.len(),
{
    if at < events.len() {
        lemma_goes_through_front(states, events);
        law_first_error_is_kept(states.drop_last(), events.drop_last(), at);
        let n = events.len() - 1;
        assert(event_gives(states[n], events[n], states[n + 1]));
    }
}

/// A status line starts the headers over: those of a response from which there
/// was a redirection are gone.
pub proof fn law_status_line_starts_over(fields: Fields, octets: Seq<u8>, error: Option<ErrorView>, result: Fields)
    requires
        valid_utf8(octets),
        is_status_line(decode_utf8(octets)),
        line_gives(fields, octets, error, result),
    ensures
        error is None,
        result == Fields::empty(),
{
}

/// A header that is sent as a line is read back from that line: its name in
/// small letters and its value, if there is no white space around it.
pub proof fn law_header_line_is_read_back(
    fields: Fields,
    name: Seq<char>,
    value: Seq<u8>,
    error: Option<ErrorView>,
    result: Fields,
)
    requires
        is_header_name(name),
        is_visible(value),
        trimmed(ascii_text(value)) == ascii_text(value),
        has_room(fields),
        line_gives(fields, encode_utf8(header_line(name, value)), error, result),
    ensures
        error is None,
        result == fields.insert(lower(name), field_values(fields, lower(name)).push(value)),
{
    let text = ascii_text(value);
    let line = header_line(name, value);
    let octets = encode_utf8(line);
    vstd::utf8::encode_utf8_valid_utf8(line);
    vstd::utf8::encode_utf8_decode_utf8(line);
    reveal_strlit(": ");
    reveal_strlit("HTTP");
    assert(!name.contains(':')) by {
        assert(forall|i: int| 0 <= i < name.len() ==> is_token_char(name[i]));
    }
    let back = seq![' '] + text;
    assert(line =~= name.push(':') + back);
    lemma_marked(name, ':', back);
    lemma_first_at(line, '/');
    if is_status_line(line) {
        let at = first_at(line, '/');
        assert(line.take(at)[0] == 'H' && line.take(at).len() == 4);
        if name.len() < 4 {
            assert(line[name.len() as int] == ':');
            assert(line.take(at)[name.len() as int] == ':');
        } else if name.len() > 4 {
            assert(is_token_char(name[4]));
            assert(line[4] == name[4]);
        } else {
            assert(line[4] == ':');
        }
        assert(false);
    }
    lemma_trimmed_token(name);
    lemma_trimmed_space(text);
    lemma_encode_ascii_text(value);
    assert(is_header_value(value));
}

/// There is no white space in a header name.
proof fn lemma_trimmed_token(name: Seq<char>)
    requires
        is_header_name(name),
    ensures
        trimmed(name) == name,
{
    assert(is_token_char(name[name.len() - 1]));
    assert(is_token_char(name[0]));
}

/// A space in front is trimmed away.
proof fn lemma_trimmed_space(text: Seq<char>)
    ensures
        trimmed(seq![' '] + text) == trimmed(text),
    decreases text.len(),
{
    let spaced = seq![' '] + text;
    if text.len() > 0 && is_white_space(text.last()) {
        assert(spaced.drop_last() =~= seq![' '] + text.drop_last());
        lemma_trimmed_space(text.drop_last());
    } else if text.len() > 0 {
        assert(spaced.skip(1) =~= text);
        assert(spaced.last() == text.last());
    } else {
        assert(spaced.drop_last() =~= text);
        assert(trimmed_end(spaced) == trimmed_end(text));
    }
}

} // verus!
