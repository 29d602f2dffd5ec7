//! Media types, as `Content-Type` headers hold them.
use mime::{FromStrError, Mime};
use vstd::prelude::*;
use crate::error::{Error, ErrorView};
use crate::headers::is_token_char;
use crate::text::{before, first_at, lemma_first_at_is, lower};

verus! {

/// A media type: a top-level type, a subtype and perhaps parameters, such as
/// `text/plain; charset=utf-8`.
#[derive(Debug)]
pub struct MediaType {
    pub(crate) text: String,
    pub(crate) top_level: String,
    pub(crate) essence: String,
    pub(crate) boundary: Option<String>,
}

/// A media type is known by the text that it is written as.
impl View for MediaType {
    type V = Seq<char>;

    closed spec fn view(&self) -> Seq<char> {
        self.text@
    }
}

/// The text that `mime` keeps of a media type that it reads: letters made
/// small where their case does not matter, and an empty list of parameters cut
/// off. Nothing where it reads no media type.
pub uninterp spec fn mime_text(s: Seq<char>) -> Option<Seq<char>>;

/// The first parameter of the name `boundary` that `mime` finds in a media
/// type.
pub uninterp spec fn mime_boundary(text: Seq<char>) -> Option<Seq<char>>;

/// The top-level type of a media type: what stands before its `/`.
pub open spec fn top_level(text: Seq<char>) -> Seq<char> {
    before(text, '/')
}

/// A media type without its parameters: what stands before its first `;`.
pub open spec fn essence(text: Seq<char>) -> Seq<char> {
    before(text, ';')
}

/// Whether a text is a media type without parameters: a token, a `/`, and
/// token characters.
pub open spec fn is_bare_media_type(s: Seq<char>) -> bool {
    let slash = first_at(s, '/');
    &&& 0 < slash < s.len()
    &&& forall|i: int| 0 <= i < s.len() && i != slash ==> is_token_char(#[trigger] s[i])
}

/// What is said of a text and of the media type that is read in it, apart from
/// its parameters: up to the first `;` the media type is the text with its
/// letters made small, and that is a media type without parameters; a text
/// without a `;` is read if and only if it is one, and names no boundary.
pub open spec fn reads_as(s: Seq<char>, read: Option<Seq<char>>) -> bool {
    &&& read matches Some(m) ==> essence(m) == lower(essence(s)) && is_bare_media_type(essence(s))
    &&& !s.contains(';') ==> (read is Some <==> is_bare_media_type(s))
    &&& !s.contains(';') ==> (read matches Some(m) ==> m == lower(s) && mime_boundary(m) is None)
}

/// An optional string as an optional character sequence.
pub open spec fn optional_view(s: Option<String>) -> Option<Seq<char>> {
    match s {
        Some(text) => Some(text@),
        None => None,
    }
}

impl MediaType {
    /// The parts of a media type agree with its text.
    #[verifier::type_invariant]
    spec fn parts_agree(self) -> bool {
        &&& self.top_level@ == top_level(self.text@)
        &&& self.essence@ == essence(self.text@)
        &&& optional_view(self.boundary) == mime_boundary(self.text@)
    }

    /// Reads a media type.
    pub fn parse(text: &str) -> (r: Result<MediaType, Error>)
        ensures
            match r {
                Ok(media_type) => mime_text(text@) == Some(media_type@),
                Err(e) => mime_text(text@) is None && e@ == ErrorView::MimeParseError,
            },
            reads_as(text@, mime_text(text@)),
    {
        match read_mime(text) {
            Ok(media_type) => Ok(media_type),
            Err(e) => Err(Error::MimeParseError(e)),
        }
    }

    /// The text of the media type.
    pub fn as_str(&self) -> (r: &str)
        ensures
            r@ == self@,
    {
        self.text.as_str()
    }

    /// The top-level type.
    pub fn type_(&self) -> (r: &str)
        ensures
            r@ == top_level(self@),
    {
        proof {
            use_type_invariant(self);
        }
        self.top_level.as_str()
    }

    /// The media type without its parameters.
    pub fn essence_str(&self) -> (r: &str)
        ensures
            r@ == essence(self@),
    {
        proof {
            use_type_invariant(self);
        }
        self.essence.as_str()
    }

    /// The boundary that a multipart media type names.
    pub fn boundary(&self) -> (r: Option<&String>)
        ensures
            r is Some <==> mime_boundary(self@) is Some,
            r matches Some(b) ==> mime_boundary(self@) == Some(b@),
    {
        proof {
            use_type_invariant(self);
        }
        self.boundary.as_ref()
    }
}

/// The media type of content of which nothing is known.
pub(crate) fn octet_stream() -> (r: MediaType)
    ensures
        r@ == "application/octet-stream"@,
        mime_text(r@) == Some(r@),
{
    proof {
        lemma_octet_stream();
    }
    read_mime("application/octet-stream").unwrap()
}

proof fn lemma_octet_stream()
    ensures
        !"application/octet-stream"@.contains(';'),
        is_bare_media_type("application/octet-stream"@),
        lower("application/octet-stream"@) == "application/octet-stream"@,
{
    reveal_strlit("application/octet-stream");
    lemma_first_at_is("application/octet-stream"@, '/', 11);
    assert(lower("application/octet-stream"@) =~= "application/octet-stream"@);
}

/// `Mime::from_str`, and of the media type that it reads its text, `type_`,
/// `essence_str` and the parameter `boundary`, which is the value that
/// [`mime_boundary`] names for that text. [`reads_as`] says what the text is,
/// apart from its parameters, of which nothing is stated. A text that was read
/// is read again as itself.
#[verifier::external_body]
pub(crate) fn read_mime(s: &str) -> (r: Result<MediaType, FromStrError>)
    ensures
        r is Ok <==> mime_text(s@) is Some,
        r matches Ok(m) ==> mime_text(s@) == Some(m@),
        r matches Ok(m) ==> mime_text(m@) == Some(m@),
        reads_as(
            s@,
            match r {
                Ok(m) => Some(m@),
                Err(_) => None,
            },
        ),
        r matches Ok(m) ==> m.top_level@ == top_level(m@) && m.essence@ == essence(m@),
        r matches Ok(m) ==> optional_view(m.boundary) == mime_boundary(m@),
{
    let mime: Mime = s.parse()?;
    Ok(
        MediaType {
            text: mime.as_ref().to_owned(),
            top_level: mime.type_().as_str().to_owned(),
            essence: mime.essence_str().to_owned(),
            boundary: mime.get_param(mime::BOUNDARY).map(|b| b.as_str().to_owned()),
        },
    )
}

} // verus!
