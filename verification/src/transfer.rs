//! What a transfer hands over, line by line and block by block, put together
//! into a response.
use http::header::HeaderMap;
use vstd::prelude::*;
use vstd::utf8::{decode_utf8, encode_utf8, valid_utf8};
use crate::error::{failure, Error, ErrorView};
use crate::headers::{
    append_header, clear_headers, field_values, has_room, header_fields, header_name, header_value,
    is_header_name, is_header_value, lemma_lower_name, no_headers, Fields,
};
use crate::octets::{octets, own_octets};
use crate::response::RawResponse;
use crate::text::{after, before, decode_text, lower, same_text, split_once, trim, trimmed};

verus! {

/// Whether a line is the status line of a response: what stands before its
/// first `/` is `HTTP`.
pub open spec fn is_status_line(line: Seq<char>) -> bool {
    line.contains('/') && before(line, '/') == "HTTP"@
}

/// Whether a line gives a header a value.
pub open spec fn is_header_line(line: Seq<char>) -> bool {
    !is_status_line(line) && line.contains(':')
}

/// The name in a header line.
pub open spec fn line_name(line: Seq<char>) -> Seq<char> {
    trimmed(before(line, ':'))
}

/// The value in a header line.
pub open spec fn line_value(line: Seq<char>) -> Seq<u8> {
    encode_utf8(trimmed(after(line, ':')))
}

/// What is wrong with a line, if anything.
pub open spec fn line_error(octets: Seq<u8>) -> Option<ErrorView> {
    let line = decode_utf8(octets);
    if !valid_utf8(octets) {
        Some(ErrorView::Utf8Error)
    } else if is_header_line(line) && !is_header_name(line_name(line)) {
        Some(ErrorView::InvalidHeaderName)
    } else if is_header_line(line) && !is_header_value(line_value(line)) {
        Some(ErrorView::InvalidHeaderValue)
    } else {
        None
    }
}

/// The headers after a line with which nothing is wrong: none after a status
/// line, one more value after a header line, the same after any other.
pub open spec fn after_line(fields: Fields, octets: Seq<u8>) -> Fields {
    let line = decode_utf8(octets);
    if is_status_line(line) {
        Map::empty()
    } else if is_header_line(line) {
        let name = lower(line_name(line));
        fields.insert(name, field_values(fields, name).push(line_value(line)))
    } else {
        fields
    }
}

/// What a line can make of the headers. A line with which something is wrong is
/// refused with the error that it is owed, and one for which there is no room
/// with that; a refused line changes nothing.
pub open spec fn line_gives(fields: Fields, octets: Seq<u8>, error: Option<ErrorView>, result: Fields) -> bool {
    if line_error(octets) is Some {
        error == line_error(octets) && result == fields
    } else if error is None {
        result == after_line(fields, octets)
    } else {
        &&& !has_room(fields)
        &&& error == Some(ErrorView::TooManyHeaders)
        &&& is_header_line(decode_utf8(octets))
        &&& result == fields
    }
}

/// Takes in one line of the head of a response. A status line starts over, as
/// each response of a chain of redirections brings one.
pub fn process_header_line(line: &[u8], headers: &mut HeaderMap) -> (r: Result<(), Error>)
    ensures
        line_gives(header_fields(*old(headers)), line@, failure(r), header_fields(*final(headers))),
{
    let text = match decode_text(line) {
        Ok(text) => text,
        Err(e) => {
            return Err(Error::Utf8Error(e));
        },
    };
    if let Some((front, _)) = split_once(text, '/') {
        if same_text(front, "HTTP") {
            clear_headers(headers);
            return Ok(());
        }
    }
    match split_once(text, ':') {
        Some((name, value)) => {
            let name = match header_name(trim(name)) {
                Ok(name) => name,
                Err(e) => {
                    return Err(Error::InvalidHeaderName(e));
                },
            };
            let value = match header_value(trim(value)) {
                Ok(value) => value,
                Err(e) => {
                    return Err(Error::InvalidHeaderValue(e));
                },
            };
            proof {
                lemma_lower_name(line_name(text@));
            }
            match append_header(headers, name.as_str(), value.as_slice()) {
                Ok(()) => Ok(()),
                Err(e) => Err(Error::TooManyHeaders(e)),
            }
        },
        None => Ok(()),
    }
}

/// A response in the making.
pub struct Collector {
    headers: HeaderMap,
    body: Vec<u8>,
    error: Option<Error>,
}

/// What a [`Collector`] holds.
pub struct CollectorView {
    pub fields: Fields,
    pub body: Seq<u8>,
    pub error: Option<ErrorView>,
}

impl View for Collector {
    type V = CollectorView;

    closed spec fn view(&self) -> CollectorView {
        CollectorView {
            fields: header_fields(self.headers),
            body: self.body@,
            error: match self.error {
                Some(e) => Some(e@),
                None => None,
            },
        }
    }
}

/// What a transfer hands over.
pub enum Event {
    /// A line of the head.
    Header(Seq<u8>),
    /// A block of the body.
    Body(Seq<u8>),
}

/// What an event can make of a response in the making. A block is put behind
/// those before it. A line is taken in as long as none was refused; the first
/// refusal is kept.
pub open spec fn event_gives(state: CollectorView, event: Event, result: CollectorView) -> bool {
    match event {
        Event::Header(line) => {
            &&& result.body == state.body
            &&& if state.error is None {
                line_gives(state.fields, line, result.error, result.fields)
            } else {
                result.error == state.error && result.fields == state.fields
            }
        },
        Event::Body(block) => {
            &&& result.body == state.body + block
            &&& result.fields == state.fields
            &&& result.error == state.error
        },
    }
}

impl Collector {
    /// Nothing yet.
    pub fn new() -> (r: Collector)
        ensures
            r@ == (CollectorView { fields: Map::empty(), body: Seq::empty(), error: None }),
    {
        Collector { headers: no_headers(), body: Vec::new(), error: None }
    }

    /// Takes in a block of the body, and says how much of it was taken in.
    pub fn on_body(&mut self, data: &[u8]) -> (r: usize)
        ensures
            event_gives(old(self)@, Event::Body(data@), final(self)@),
            r == data@.len(),
    {
        self.body.extend_from_slice(data);
        assert(self.body@ =~= old(self).body@ + data@);
        data.len()
    }

    /// Takes in a line of the head. The transfer goes on in any case.
    pub fn on_header(&mut self, line: &[u8]) -> (r: bool)
        ensures
            event_gives(old(self)@, Event::Header(line@), final(self)@),
            r,
    {
        if self.error.is_none() {
            if let Err(e) = process_header_line(line, &mut self.headers) {
                self.error = Some(e);
            }
        }
        true
    }

    /// The response, once the transfer is over; or the first error that a line
    /// gave.
    pub fn finish(self, response_code: u32) -> (r: Result<RawResponse, Error>)
        ensures
            match r {
                Ok(response) => {
                    &&& self@.error is None
                    &&& header_fields(response.headers) == self@.fields
                    &&& octets(response.body) == self@.body
                    &&& response.status_code == response_code % 65536
                },
                Err(e) => self@.error == Some(e@),
            },
    {
        let status_code: u16 = #[verifier::truncate]
        (response_code as u16);
        assert(status_code == response_code % 65536) by (bit_vector)
            requires
                status_code == response_code as u16,
        ;
        match self.error {
            Some(e) => Err(e),
            None => Ok(
                RawResponse { headers: self.headers, body: own_octets(self.body), status_code },
            ),
        }
    }
}

} // verus!
