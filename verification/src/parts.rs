//! Reading multipart bodies.
use bytes::buf::Reader;
use bytes::{Buf, Bytes};
use multipart::server::{Multipart, ReadEntry, ReadEntryResult};
use std::io::Read;
use vstd::prelude::*;
use vstd::utf8::encode_utf8;
use crate::media_type::{mime_text, optional_view, read_mime, MediaType};
use crate::octets::{octets, own_octets};

verus! {

/// `bytes`'s reader over a buffer.
#[verifier::external_type_specification]
#[verifier::external_body]
#[verifier::reject_recursive_types(B)]
pub struct ExReader<B>(bytes::buf::Reader<B>);

/// `multipart`'s reader of the parts of a body.
#[verifier::external_type_specification]
#[verifier::external_body]
#[verifier::reject_recursive_types(R)]
pub struct ExMultipart<R>(multipart::server::Multipart<R>);

/// One part of a multipart body.
#[derive(Debug)]
pub struct Part {
    pub name: String,
    pub content_type: Option<MediaType>,
    pub data: Bytes,
}

/// What a [`Part`] holds.
pub struct PartView {
    pub name: Seq<char>,
    pub content_type: Option<Seq<char>>,
    pub data: Seq<u8>,
}

impl View for Part {
    type V = PartView;

    open spec fn view(&self) -> PartView {
        PartView {
            name: self.name@,
            content_type: match self.content_type {
                Some(media_type) => Some(media_type@),
                None => None,
            },
            data: octets(self.data),
        }
    }
}

/// What a list of parts holds.
pub open spec fn read_views(parts: Seq<Part>) -> Seq<PartView> {
    parts.map_values(|p: Part| p@)
}

/// The parts that `multipart` finds in a body, in order, and a nothing behind
/// them if it then fails to read on.
pub uninterp spec fn multipart_parts(body: Seq<u8>, boundary: Seq<char>) -> Seq<Option<PartView>>;

/// The parts that a reader has still to give, and a nothing behind them if it
/// then fails to read on.
pub uninterp spec fn parts_left(reader: Multipart<Reader<&[u8]>>) -> Seq<Option<PartView>>;

/// The body that a reader was made for.
pub uninterp spec fn source(reader: Multipart<Reader<&[u8]>>) -> Seq<u8>;

/// The octets at which a reader cuts its body.
pub uninterp spec fn mark(reader: Multipart<Reader<&[u8]>>) -> Seq<u8>;

/// How many octets of its body a reader has not yet taken in.
pub uninterp spec fn unread(reader: Multipart<Reader<&[u8]>>) -> nat;

/// The octets that mark a boundary: two hyphens and the boundary itself.
pub open spec fn boundary_mark(boundary: Seq<char>) -> Seq<u8> {
    seq![0x2du8, 0x2du8] + encode_utf8(boundary)
}

/// Whether `run` stands in `octets` at `at`.
pub open spec fn stands_at(run: Seq<u8>, octets: Seq<u8>, at: int) -> bool {
    &&& 0 <= at <= octets.len() - run.len()
    &&& octets.subrange(at, at + run.len()) == run
}

/// Whether `run` stands somewhere in `octets`.
pub open spec fn occurs_in(run: Seq<u8>, octets: Seq<u8>) -> bool {
    exists|at: int| #[trigger] stands_at(run, octets, at)
}

/// Whether `data` stands in `body` behind the octets that were taken in before,
/// with something between, and within those that are taken in now.
pub open spec fn is_taken(data: Seq<u8>, body: Seq<u8>, unread_before: nat, unread_now: nat) -> bool {
    exists|at: int| #[trigger]
        stands_at(data, body, at) && body.len() - unread_before < at && at + data.len() <= body.len() - unread_now
}

/// `Multipart::with_body`: a reader of the parts of `body`, which it cuts at two
/// hyphens and the boundary. Up to a length of 8192 the whole body fits the
/// buffer that the reader sets up, and the parts are those that
/// [`multipart_parts`] names. Of a longer body the parts depend on how much
/// memory the buffer was given: they are named for the reader that has it, and
/// not for the body.
#[verifier::external_body]
fn open_body<'a>(body: &'a [u8], boundary: &str) -> (r: Multipart<Reader<&'a [u8]>>)
    ensures
        source(r) == body@,
        mark(r) == boundary_mark(boundary@),
        unread(r) == body@.len(),
        body@.len() <= 8192 ==> parts_left(r) == multipart_parts(body@, boundary@),
{
    Multipart::with_body(body.reader(), boundary)
}

/// `ReadEntry::read_entry_mut` and, on the data of the entry, `read_to_end`:
/// the name, the text of the media type and the data of the next part, nothing
/// at the end of the body, or an error. The data stands in the body as it is,
/// behind a boundary, and holds none. The media type was read by `mime`, which
/// reads its text again as itself. What the reader gives is what
/// [`parts_left`] names for it.
#[verifier::external_body]
fn next_part(reader: &mut Multipart<Reader<&[u8]>>) -> (r: Result<Option<(String, Option<String>, Vec<u8>)>, std::io::Error>)
    ensures
        source(*final(reader)) == source(*old(reader)),
        mark(*final(reader)) == mark(*old(reader)),
        unread(*final(reader)) <= unread(*old(reader)),
        r matches Ok(Some(part)) ==> is_taken(
            part.2@,
            source(*old(reader)),
            unread(*old(reader)),
            unread(*final(reader)),
        ),
        r matches Ok(Some(part)) ==> !occurs_in(mark(*old(reader)), part.2@),
        r matches Ok(Some(part)) ==> (part.1 matches Some(text) ==> mime_text(text@) == Some(text@)),
        gives(r, parts_left(*old(reader)), parts_left(*final(reader))),
{
    match reader.read_entry_mut() {
        ReadEntryResult::Entry(mut entry) => {
            let mut data: Vec<u8> = Vec::new();
            entry.data.read_to_end(&mut data)?;
            let content_type = entry.headers.content_type.map(|m| m.as_ref().to_owned());
            Ok(Some(((*entry.headers.name).to_owned(), content_type, data)))
        },
        ReadEntryResult::End(_) => Ok(None),
        ReadEntryResult::Error(_, error) => Err(error),
    }
}

/// What one step of a reader gives, if `left` was still to be given before it
/// and `rest` is after it.
pub open spec fn gives(
    r: Result<Option<(String, Option<String>, Vec<u8>)>, std::io::Error>,
    left: Seq<Option<PartView>>,
    rest: Seq<Option<PartView>>,
) -> bool {
    match r {
        Ok(Some(part)) => {
            &&& left.len() > 0
            &&& left[0] == Some(
                PartView { name: part.0@, content_type: optional_view(part.1), data: part.2@ },
            )
            &&& rest == left.skip(1)
        },
        Ok(None) => left.len() == 0,
        Err(_) => left == seq![None::<PartView>],
    }
}

/// One more than the length of the longest of some parts; zero if there are none.
pub open spec fn longest(parts: Seq<PartView>) -> nat
    decreases parts.len(),
{
    if parts.len() == 0 {
        0
    } else {
        let others = longest(parts.drop_last());
        let last = parts.last().data.len() + 1;
        if last > others {
            last
        } else {
            others
        }
    }
}

/// Parts, and a nothing behind them if reading then failed.
pub open spec fn ended(parts: Seq<PartView>, failed: bool) -> Seq<Option<PartView>> {
    let found = parts.map_values(|p: PartView| Some(p));
    if failed {
        found.push(None)
    } else {
        found
    }
}

/// Whether parts stand in a body at `starts`: in order, with something before
/// each and between each and the next, and without a boundary in any.
pub open spec fn stand_at(parts: Seq<PartView>, body: Seq<u8>, boundary: Seq<char>, starts: Seq<int>) -> bool {
    &&& starts.len() == parts.len()
    &&& forall|i: int|
        0 <= i < parts.len() ==> {
            &&& 0 < #[trigger] starts[i]
            &&& stands_at(parts[i].data, body, starts[i])
            &&& !occurs_in(boundary_mark(boundary), parts[i].data)
        }
    &&& forall|i: int, j: int|
        0 <= i < j < parts.len() ==> #[trigger] starts[i] + parts[i].data.len() < #[trigger] starts[j]
}

/// Whether a reader was made for a body and a boundary, and is at the start.
pub open spec fn is_opened(reader: Multipart<Reader<&[u8]>>, body: Seq<u8>, boundary: Seq<char>) -> bool {
    &&& source(reader) == body
    &&& mark(reader) == boundary_mark(boundary)
    &&& unread(reader) == body.len()
}

/// Whether `parts` can be what is read of a body, up to a failure or to its
/// end: they are all that a reader gives which was made for the body; they stand
/// in the body in order, between boundaries; and up to a length of 8192 they are
/// those that [`multipart_parts`] names.
pub open spec fn may_be_read(body: Seq<u8>, boundary: Seq<char>, parts: Seq<PartView>, failed: bool) -> bool {
    &&& longest(parts) <= body.len()
    &&& exists|starts: Seq<int>| #[trigger] stand_at(parts, body, boundary, starts)
    &&& exists|reader: Multipart<Reader<&[u8]>>| #[trigger]
        is_opened(reader, body, boundary) && parts_left(reader) == ended(parts, failed)
    &&& body.len() <= 8192 ==> ended(parts, failed) == multipart_parts(body, boundary)
}

/// Reads the parts of a body, up to its end or to the first failure.
pub fn read_parts(body: &[u8], boundary: &str) -> (r: (Vec<Part>, Option<std::io::Error>))
    ensures
        may_be_read(body@, boundary@, read_views(r.0@), r.1 is Some),
{
    let mut parts: Vec<Part> = Vec::new();
    let mut reader = open_body(body, boundary);
    let ghost opened = reader;
    let ghost all = parts_left(reader);
    let ghost mut starts: Seq<int> = Seq::empty();
    proof {
        assert(ended(read_views(parts@), false) =~= Seq::<Option<PartView>>::empty());
        assert(all =~= ended(read_views(parts@), false) + all);
    }
    loop
        invariant
            is_opened(opened, body@, boundary@),
            all == parts_left(opened),
            body@.len() <= 8192 ==> all == multipart_parts(body@, boundary@),
            source(reader) == body@,
            mark(reader) == boundary_mark(boundary@),
            unread(reader) <= body@.len(),
            longest(read_views(parts@)) <= body@.len(),
            stand_at(read_views(parts@), body@, boundary@, starts),
            forall|i: int|
                0 <= i < starts.len() ==> #[trigger] starts[i] + parts@[i]@.data.len() <= body@.len() - unread(reader),
            all == ended(read_views(parts@), false) + parts_left(reader),
        decreases unread(reader),
    {
        let ghost so_far = read_views(parts@);
        let ghost left = parts_left(reader);
        let ghost unread_before = unread(reader);
        match next_part(&mut reader) {
            Ok(Some((name, text, data))) => {
                let content_type = match text {
                    Some(text) => Some(read_mime(text.as_str()).unwrap()),
                    None => None,
                };
                let part = Part { name, content_type, data: own_octets(data) };
                parts.push(part);
                proof {
                    let at = choose|at: int| #[trigger]
                        stands_at(part@.data, body@, at) && body@.len() - unread_before < at && at
                            + part@.data.len() <= body@.len() - unread(reader);
                    starts = starts.push(at);
                    assert(read_views(parts@) =~= so_far.push(part@));
                    assert(read_views(parts@).drop_last() =~= so_far);
                    assert(ended(so_far.push(part@), false) =~= ended(so_far, false).push(Some(part@)));
                    assert(left =~= seq![Some(part@)] + left.skip(1));
                    assert(ended(so_far, false) + left =~= ended(so_far, false).push(Some(part@)) + left.skip(1));
                }
            },
            Ok(None) => {
                proof {
                    assert(left =~= Seq::empty());
                    assert(ended(so_far, false) + Seq::empty() =~= ended(so_far, false));
                }
                return (parts, None);
            },
            Err(e) => {
                proof {
                    assert(ended(so_far, true) =~= ended(so_far, false) + seq![None]);
                }
                return (parts, Some(e));
            },
        }
    }
}

/// No part is as long as [`longest`] says.
pub proof fn lemma_longest(parts: Seq<PartView>, i: int)
    requires
        0 <= i < parts.len(),
    ensures
        parts[i].data.len() < longest(parts),
    decreases parts.len(),
{
    if i < parts.len() - 1 {
        lemma_longest(parts.drop_last(), i);
    }
}

/// Leaving a part out leaves none that is longer.
pub proof fn lemma_longest_skip(parts: Seq<PartView>)
    requires
        parts.len() > 0,
    ensures
        longest(parts.skip(1)) <= longest(parts),
    decreases parts.len(),
{
    if parts.len() > 1 {
        lemma_longest_skip(parts.drop_last());
        assert(parts.drop_last().skip(1) =~= parts.skip(1).drop_last());
    }
}

} // verus!
