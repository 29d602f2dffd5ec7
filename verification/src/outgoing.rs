//! A request in the form in which it is handed to the transfer.
use bytes::Bytes;
use http::header::HeaderMap;
use vstd::prelude::*;
use vstd::utf8::encode_utf8;
use crate::error::{Error, ErrorView};
use crate::headers::{
    all_visible, header_fields, header_text, is_visible, lemma_not_visible, lemma_visible,
    list_headers, list_view, lists, Fields,
};
use crate::octets::octets;
use crate::percent::ascii_text;
use crate::request::{part_views, Method, MultipartPart, MultipartPartView, RequestBodyView};

verus! {

/// A request that is ready to be sent.
pub struct PreparedRequest {
    pub url: String,
    /// The method, as it stands in the request line.
    pub method: String,
    /// Whether the response is to be read without a body.
    pub head_only: bool,
    pub timeout_seconds: u64,
    pub follow_location: bool,
    pub max_redirections: u32,
    pub payload: Payload,
    /// The headers, one line each.
    pub header_lines: Vec<String>,
}

/// What a request carries.
#[derive(Debug)]
pub enum Payload {
    Nothing,
    /// Octets as they are.
    Fields(Bytes),
    /// The parts of a multipart body, which the transfer writes.
    Form(Vec<MultipartPart>),
}

/// What a [`Payload`] holds.
pub enum PayloadView {
    Nothing,
    Fields(Seq<u8>),
    Form(Seq<MultipartPartView>),
}

impl View for Payload {
    type V = PayloadView;

    open spec fn view(&self) -> PayloadView {
        match self {
            Payload::Nothing => PayloadView::Nothing,
            Payload::Fields(data) => PayloadView::Fields(octets(*data)),
            Payload::Form(parts) => PayloadView::Form(part_views(parts@)),
        }
    }
}

/// The payload that carries a body. One that is sent as it is and is empty is
/// not sent at all; an empty form is sent.
pub open spec fn payload_of(body: RequestBodyView) -> PayloadView {
    match body {
        RequestBodyView::Raw { data, .. } => if data.len() == 0 {
            PayloadView::Nothing
        } else {
            PayloadView::Fields(data)
        },
        RequestBodyView::FormUrlEncoded(text) => PayloadView::Fields(encode_utf8(text)),
        RequestBodyView::Multipart(parts) => PayloadView::Form(parts),
    }
}

/// A method as it stands in the request line.
pub open spec fn method_text(method: Method) -> Seq<char> {
    match method {
        Method::GET => "GET"@,
        Method::PUT => "PUT"@,
        Method::POST => "POST"@,
        Method::HEAD => "HEAD"@,
        Method::DELETE => "DELETE"@,
        Method::PATCH => "PATCH"@,
    }
}

impl Method {
    /// The method as it stands in the request line.
    pub fn as_str(&self) -> (r: &str)
        ensures
            r@ == method_text(*self),
    {
        match self {
            Method::GET => "GET",
            Method::PUT => "PUT",
            Method::POST => "POST",
            Method::HEAD => "HEAD",
            Method::DELETE => "DELETE",
            Method::PATCH => "PATCH",
        }
    }
}

/// The line that gives a header a value.
pub open spec fn header_line(name: Seq<char>, value: Seq<u8>) -> Seq<char> {
    name + ": "@ + ascii_text(value)
}

/// Whether `lines` are the lines of some headers: one for each value, those of
/// one header in their order, the headers in any.
pub open spec fn are_lines_of(lines: Seq<Seq<char>>, fields: Fields) -> bool {
    exists|pairs: Seq<(Seq<char>, Seq<u8>)>| #[trigger]
        lists(pairs, fields) && lines == pairs.map_values(
            |p: (Seq<char>, Seq<u8>)| header_line(p.0, p.1),
        )
}

/// Writes headers as lines.
pub fn header_lines(headers: &HeaderMap) -> (r: Result<Vec<String>, Error>)
    ensures
        match r {
            Ok(lines) => {
                &&& all_visible(header_fields(*headers))
                &&& are_lines_of(lines@.map_values(|line: String| line@), header_fields(*headers))
            },
            Err(e) => {
                &&& !all_visible(header_fields(*headers))
                &&& e@ == ErrorView::ToStringError
            },
        },
{
    let ghost fields = header_fields(*headers);
    let listed = list_headers(headers);
    let ghost pairs = list_view(listed@);
    let ghost expected = pairs.map_values(|p: (Seq<char>, Seq<u8>)| header_line(p.0, p.1));
    let mut lines: Vec<String> = Vec::new();
    let mut i: usize = 0;
    while i < listed.len()
        invariant
            i <= listed.len(),
            fields == header_fields(*headers),
            pairs == list_view(listed@),
            lists(pairs, fields),
            expected == pairs.map_values(|p: (Seq<char>, Seq<u8>)| header_line(p.0, p.1)),
            lines@.map_values(|line: String| line@) =~= expected.take(i as int),
            forall|k: int| 0 <= k < i ==> is_visible((#[trigger] pairs[k]).1),
        decreases listed.len() - i,
    {
        proof {
            assert(pairs[i as int] == (listed[i as int].0@, listed[i as int].1@));
        }
        match header_text(listed[i].1.as_slice()) {
            Ok(text) => {
                let ghost so_far = lines@.map_values(|line: String| line@);
                let mut line = listed[i].0.as_str().to_owned();
                line.append(": ");
                line.append(text.as_str());
                lines.push(line);
                proof {
                    assert(line@ =~= expected[i as int]);
                    assert(lines@.map_values(|line: String| line@) =~= so_far.push(line@));
                    assert(expected.take(i + 1) =~= expected.take(i as int).push(line@));
                }
            },
            Err(e) => {
                proof {
                    lemma_not_visible(pairs, fields, i as int);
                }
                return Err(Error::ToStringError(e));
            },
        }
        i += 1;
    }
    proof {
        assert(expected.take(i as int) =~= expected);
        lemma_visible(pairs, fields);
    }
    Ok(lines)
}

} // verus!
