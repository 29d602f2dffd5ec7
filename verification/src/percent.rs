//! Percent-encoding of names and values.
use vstd::prelude::*;
use vstd::utf8::{encode_utf8, is_ascii_chars};
use crate::text::join_with;

verus! {

/// The octets that percent-encoding leaves as they are: the ASCII letters and
/// digits, and `-`, `.`, `_`, `~`.
pub open spec fn is_unreserved(b: u8) -> bool {
    ||| 0x30 <= b <= 0x39
    ||| 0x41 <= b <= 0x5a
    ||| 0x61 <= b <= 0x7a
    ||| b == 0x2d
    ||| b == 0x2e
    ||| b == 0x5f
    ||| b == 0x7e
}

/// The characters of a form that is written out.
pub open spec fn is_form_char(c: char) -> bool {
    ||| c == '%'
    ||| c == '='
    ||| c == '&'
    ||| is_plain_char(c)
}

/// The characters that are not changed by being encoded.
pub open spec fn is_plain_char(c: char) -> bool {
    c <= '\u{7f}' && is_unreserved(c as u8)
}

/// The capital hexadecimal digit for a number under sixteen.
pub open spec fn hex_digit(n: int) -> u8 {
    if n < 10 {
        (0x30 + n) as u8
    } else {
        (0x37 + n) as u8
    }
}

/// One octet, percent-encoded.
pub open spec fn percent_encoded_octet(b: u8) -> Seq<u8> {
    if is_unreserved(b) {
        seq![b]
    } else {
        seq![0x25u8, hex_digit(b as int / 16), hex_digit(b as int % 16)]
    }
}

/// An octet string, percent-encoded octet by octet.
pub open spec fn percent_encoded(octets: Seq<u8>) -> Seq<u8>
    decreases octets.len(),
{
    if octets.len() == 0 {
        Seq::empty()
    } else {
        percent_encoded_octet(octets[0]) + percent_encoded(octets.skip(1))
    }
}

/// ASCII octets as characters.
pub open spec fn ascii_text(octets: Seq<u8>) -> Seq<char> {
    octets.map_values(|b: u8| b as char)
}

/// A text, percent-encoded over its UTF-8 octets.
pub open spec fn url_encoded(s: Seq<char>) -> Seq<char> {
    ascii_text(percent_encoded(encode_utf8(s)))
}

/// How a named value is written in a query or a form: `name=value`, both
/// percent-encoded; the name alone where the value is empty.
pub open spec fn encoded_pair(name: Seq<char>, value: Seq<char>) -> Seq<char> {
    if value.len() == 0 {
        url_encoded(name)
    } else {
        url_encoded(name).push('=') + url_encoded(value)
    }
}

/// `urlencoding::encode`: percent-encodes every UTF-8 octet of the text except
/// the ASCII letters and digits and `-`, `.`, `_`, `~`.
#[verifier::external_body]
pub(crate) fn url_encode(s: &str) -> (r: String)
    ensures
        r@ == url_encoded(s@),
{
    urlencoding::encode(s).into_owned()
}

/// Writes a named value as a query or a form holds it.
pub fn encode_pair(name: &str, value: &str) -> (r: String)
    ensures
        r@ == encoded_pair(name@, value@),
{
    let mut written = url_encode(name);
    if !value.is_empty() {
        written.append("=");
        let encoded = url_encode(value);
        written.append(encoded.as_str());
        proof {
            reveal_strlit("=");
            assert(written@ =~= encoded_pair(name@, value@));
        }
    }
    written
}

/// Percent-encoding gives ASCII, and neither `&`, `=` nor `+`.
pub proof fn lemma_percent_encoded_octets(octets: Seq<u8>)
    ensures
        forall|i: int|
            0 <= i < percent_encoded(octets).len() ==> {
                let b = #[trigger] percent_encoded(octets)[i];
                b == 0x25u8 || is_unreserved(b)
            },
        percent_encoded(octets).len() == 0 <==> octets.len() == 0,
    decreases octets.len(),
{
    if octets.len() > 0 {
        lemma_percent_encoded_octets(octets.skip(1));
        let head = percent_encoded_octet(octets[0]);
        let tail = percent_encoded(octets.skip(1));
        assert(percent_encoded(octets) == head + tail);
        assert forall|i: int| 0 <= i < percent_encoded(octets).len() implies {
            let b = #[trigger] percent_encoded(octets)[i];
            b == 0x25u8 || is_unreserved(b)
        } by {
            if i < head.len() {
                assert(percent_encoded(octets)[i] == head[i]);
            } else {
                assert(percent_encoded(octets)[i] == tail[i - head.len()]);
            }
        }
    }
}

/// The UTF-8 octets of two texts, one after the other.
pub proof fn lemma_encode_concat(a: Seq<char>, b: Seq<char>)
    ensures
        encode_utf8(a + b) == encode_utf8(a) + encode_utf8(b),
    decreases a.len(),
{
    if a.len() == 0 {
        assert(a + b =~= b);
        assert(encode_utf8(a) + encode_utf8(b) =~= encode_utf8(b));
    } else {
        assert((a + b).drop_first() =~= a.drop_first() + b);
        lemma_encode_concat(a.drop_first(), b);
        assert(encode_utf8(a + b) =~= encode_utf8(a) + encode_utf8(b));
    }
}

/// An ASCII character is its own single UTF-8 octet.
pub proof fn lemma_encode_ascii_char(c: char)
    requires
        c <= '\u{7f}',
    ensures
        encode_utf8(seq![c]) == seq![c as u8],
{
    assert(is_ascii_chars(seq![c]));
    vstd::utf8::is_ascii_chars_encode_utf8(seq![c]);
    assert(encode_utf8(seq![c]) =~= seq![c as u8]) by {
        assert(seq![c][0] == c);
    }
}

/// ASCII octets, read as characters, have those octets as their UTF-8.
pub proof fn lemma_encode_ascii_text(octets: Seq<u8>)
    requires
        forall|i: int| 0 <= i < octets.len() ==> #[trigger] octets[i] < 0x80,
    ensures
        encode_utf8(ascii_text(octets)) == octets,
{
    let text = ascii_text(octets);
    assert(is_ascii_chars(text));
    vstd::utf8::is_ascii_chars_encode_utf8(text);
    assert forall|i: int| 0 <= i < octets.len() implies encode_utf8(text)[i] == octets[i] by {
        assert(text[i] == octets[i] as char);
    }
    assert(encode_utf8(text) =~= octets);
}

/// The UTF-8 octets of a percent-encoded text are the percent-encoding of its
/// UTF-8 octets.
pub proof fn lemma_encode_url_encoded(s: Seq<char>)
    ensures
        encode_utf8(url_encoded(s)) == percent_encoded(encode_utf8(s)),
{
    lemma_percent_encoded_octets(encode_utf8(s));
    lemma_encode_ascii_text(percent_encoded(encode_utf8(s)));
}

/// Joining texts with an ASCII mark and then taking UTF-8 octets is the same as
/// taking the octets of each and joining those.
pub proof fn lemma_encode_join(pieces: Seq<Seq<char>>, mark: char)
    requires
        mark <= '\u{7f}',
    ensures
        encode_utf8(join_with(pieces, mark)) == join_with(
            pieces.map_values(|p: Seq<char>| encode_utf8(p)),
            mark as u8,
        ),
    decreases pieces.len(),
{
    let encoded = pieces.map_values(|p: Seq<char>| encode_utf8(p));
    if pieces.len() > 1 {
        let front = join_with(pieces.drop_last(), mark);
        lemma_encode_join(pieces.drop_last(), mark);
        assert(pieces.drop_last().map_values(|p: Seq<char>| encode_utf8(p)) =~= encoded.drop_last());
        lemma_encode_concat(front.push(mark), pieces.last());
        assert(front.push(mark) =~= front + seq![mark]);
        lemma_encode_concat(front, seq![mark]);
        lemma_encode_ascii_char(mark);
        assert(encode_utf8(front) + seq![mark as u8] =~= encode_utf8(front).push(mark as u8));
    }
}

} // verus!
