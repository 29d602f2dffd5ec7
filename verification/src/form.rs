//! Reading `application/x-www-form-urlencoded` bodies.
use vstd::prelude::*;
use vstd::utf8::{decode_utf8, encode_utf8, valid_utf8};
use crate::percent::{
    encoded_pair, hex_digit, is_unreserved, lemma_encode_ascii_char, lemma_encode_concat,
    lemma_encode_join, lemma_encode_url_encoded, lemma_percent_encoded_octets, percent_encoded,
    percent_encoded_octet, url_encoded,
};
use crate::text::{after, before, join_with, lemma_marked, lemma_split_join, lemma_unmarked, split_on};

verus! {

/// The number that a hexadecimal digit of either case stands for.
pub open spec fn hex_value(b: u8) -> Option<int> {
    if 0x30 <= b <= 0x39 {
        Some(b - 0x30)
    } else if 0x41 <= b <= 0x46 {
        Some(b - 0x37)
    } else if 0x61 <= b <= 0x66 {
        Some(b - 0x57)
    } else {
        None
    }
}

/// Whether `octets` starts with `%` and two hexadecimal digits.
pub open spec fn starts_escaped(octets: Seq<u8>) -> bool {
    &&& octets.len() >= 3
    &&& octets[0] == 0x25u8
    &&& hex_value(octets[1]) is Some
    &&& hex_value(octets[2]) is Some
}

/// `octets` with every `%` and two hexadecimal digits replaced by the octet
/// that the digits name. A `%` without two digits behind it stays.
pub open spec fn percent_decoded(octets: Seq<u8>) -> Seq<u8>
    decreases octets.len(),
{
    if octets.len() == 0 {
        Seq::empty()
    } else if starts_escaped(octets) {
        seq![(hex_value(octets[1])->0 * 16 + hex_value(octets[2])->0) as u8] + percent_decoded(
            octets.skip(3),
        )
    } else {
        seq![octets[0]] + percent_decoded(octets.skip(1))
    }
}

/// One side of a pair, decoded: `+` stands for a space, and the rest is
/// percent-decoded.
pub open spec fn form_decoded(octets: Seq<u8>) -> Seq<u8> {
    percent_decoded(octets.map_values(|b: u8| if b == 0x2bu8 { 0x20u8 } else { b }))
}

/// The pieces of a form body: what stands between its `&`s and is not empty.
pub open spec fn form_pieces(body: Seq<u8>) -> Seq<Seq<u8>> {
    split_on(body, 0x26u8).filter(|piece: Seq<u8>| piece.len() > 0)
}

/// Whether `text` is what `octets` spells, wherever `octets` is UTF-8.
pub open spec fn spells(octets: Seq<u8>, text: Seq<char>) -> bool {
    valid_utf8(octets) ==> text == decode_utf8(octets)
}

/// `pairs` is what `body` spells: one pair for each piece, the name before the
/// first `=` of the piece and the value after it.
pub open spec fn spells_pairs(body: Seq<u8>, pairs: Seq<(Seq<char>, Seq<char>)>) -> bool {
    let pieces = form_pieces(body);
    &&& pairs.len() == pieces.len()
    &&& forall|i: int|
        0 <= i < pieces.len() ==> {
            &&& spells(form_decoded(before(pieces[i], 0x3du8)), (#[trigger] pairs[i]).0)
            &&& spells(form_decoded(after(pieces[i], 0x3du8)), pairs[i].1)
        }
}

/// The names and values that `form_urlencoded::parse` finds in a body.
pub uninterp spec fn form_pairs(body: Seq<u8>) -> Seq<(Seq<char>, Seq<char>)>;

/// Pairs of strings, as pairs of character sequences.
pub open spec fn pair_views(pairs: Seq<(String, String)>) -> Seq<(Seq<char>, Seq<char>)> {
    pairs.map_values(|p: (String, String)| (p.0@, p.1@))
}

/// `form_urlencoded::parse`: the pairs that the body holds, in order. A body is
/// cut at `&`, empty pieces are skipped, a piece is cut at its first `=`, and
/// both sides have `+` read as a space and are percent-decoded. What the
/// decoded octets spell is stated where they are UTF-8; where they are not,
/// the crate puts replacement characters, and only the name is given here.
#[verifier::external_body]
pub(crate) fn read_form(body: &[u8]) -> (r: Vec<(String, String)>)
    ensures
        pair_views(r@) == form_pairs(body@),
        spells_pairs(body@, pair_views(r@)),
{
    form_urlencoded::parse(body).into_owned().collect()
}

/// Percent-decoding undoes percent-encoding, in which no `+` occurs.
pub proof fn lemma_form_decoded(octets: Seq<u8>)
    ensures
        form_decoded(percent_encoded(octets)) == octets,
{
    lemma_percent_encoded_octets(octets);
    let encoded = percent_encoded(octets);
    assert(encoded.map_values(|b: u8| if b == 0x2bu8 { 0x20u8 } else { b }) =~= encoded);
    lemma_percent_decoded(octets);
}

proof fn lemma_percent_decoded(octets: Seq<u8>)
    ensures
        percent_decoded(percent_encoded(octets)) == octets,
    decreases octets.len(),
{
    if octets.len() > 0 {
        let b = octets[0];
        let head = percent_encoded_octet(b);
        let tail = percent_encoded(octets.skip(1));
        let whole = percent_encoded(octets);
        lemma_percent_decoded(octets.skip(1));
        assert(whole == head + tail);
        if is_unreserved(b) {
            assert(whole[0] == b);
            assert(whole.skip(1) =~= tail);
        } else {
            assert(whole[0] == 0x25u8);
            assert(whole[1] == hex_digit(b as int / 16));
            assert(whole[2] == hex_digit(b as int % 16));
            assert(whole.skip(3) =~= tail);
            assert(hex_value(whole[1]) == Some(b as int / 16));
            assert(hex_value(whole[2]) == Some(b as int % 16));
        }
        assert(percent_decoded(whole) =~= octets);
    } else {
        assert(percent_decoded(percent_encoded(octets)) =~= octets);
    }
}

/// The octets of a written pair, and what a reader finds in them.
proof fn lemma_written_pair(name: Seq<char>, value: Seq<char>)
    ensures
        !encode_utf8(encoded_pair(name, value)).contains(0x26u8),
        encode_utf8(encoded_pair(name, value)).len() == 0 <==> name.len() == 0 && value.len() == 0,
        form_decoded(before(encode_utf8(encoded_pair(name, value)), 0x3du8)) == encode_utf8(name),
        form_decoded(after(encode_utf8(encoded_pair(name, value)), 0x3du8)) == encode_utf8(value),
{
    let name_octets = percent_encoded(encode_utf8(name));
    let value_octets = percent_encoded(encode_utf8(value));
    lemma_percent_encoded_octets(encode_utf8(name));
    lemma_percent_encoded_octets(encode_utf8(value));
    lemma_encode_url_encoded(name);
    lemma_encode_url_encoded(value);
    lemma_form_decoded(encode_utf8(name));
    lemma_form_decoded(encode_utf8(value));
    lemma_encode_nonempty(name);
    lemma_encode_nonempty(value);
    assert(!name_octets.contains(0x3du8));
    let written = encode_utf8(encoded_pair(name, value));
    if value.len() == 0 {
        lemma_unmarked(name_octets, 0x3du8);
        assert(form_decoded(Seq::<u8>::empty()) =~= encode_utf8(value));
    } else {
        let front = url_encoded(name);
        lemma_encode_concat(front.push('='), url_encoded(value));
        assert(front.push('=') =~= front + seq!['=']);
        lemma_encode_concat(front, seq!['=']);
        lemma_encode_ascii_char('=');
        assert(written =~= name_octets.push(0x3du8) + value_octets);
        lemma_marked(name_octets, 0x3du8, value_octets);
    }
}

/// Only the empty text has no octets.
pub proof fn lemma_encode_nonempty(s: Seq<char>)
    ensures
        encode_utf8(s).len() == 0 <==> s.len() == 0,
{
    if s.len() > 0 {
        vstd::utf8::encode_utf8_first_scalar(s);
    }
}

/// How a list of named values is written as a form body: each as
/// [`encoded_pair`] writes it, with `&` between.
pub open spec fn form_text(pairs: Seq<(Seq<char>, Seq<char>)>) -> Seq<char> {
    join_with(pairs.map_values(|p: (Seq<char>, Seq<char>)| encoded_pair(p.0, p.1)), '&')
}

/// Reading a form gives back what was written: a body that holds the written
/// form of `pairs` spells `pairs` and nothing else, for pairs of which none has
/// both an empty name and an empty value.
pub proof fn law_form_is_read_back(
    pairs: Seq<(Seq<char>, Seq<char>)>,
    read: Seq<(Seq<char>, Seq<char>)>,
)
    requires
        forall|i: int| 0 <= i < pairs.len() ==> (#[trigger] pairs[i]).0.len() > 0 || pairs[i].1.len() > 0,
        spells_pairs(encode_utf8(form_text(pairs)), read),
    ensures
        read == pairs,
{
    let texts = pairs.map_values(|p: (Seq<char>, Seq<char>)| encoded_pair(p.0, p.1));
    let written = texts.map_values(|t: Seq<char>| encode_utf8(t));
    let body = encode_utf8(form_text(pairs));
    let pred = |piece: Seq<u8>| piece.len() > 0;
    lemma_encode_join(texts, '&');
    assert forall|i: int| 0 <= i < pairs.len() implies {
        &&& !(#[trigger] written[i]).contains(0x26u8)
        &&& written[i].len() > 0
        &&& form_decoded(before(written[i], 0x3du8)) == encode_utf8(pairs[i].0)
        &&& form_decoded(after(written[i], 0x3du8)) == encode_utf8(pairs[i].1)
    } by {
        lemma_written_pair(pairs[i].0, pairs[i].1);
    }
    if pairs.len() == 0 {
        assert(body =~= Seq::<u8>::empty());
        lemma_unmarked(body, 0x26u8);
        assert(split_on(body, 0x26u8).drop_last() =~= Seq::<Seq<u8>>::empty());
        reveal_with_fuel(Seq::filter, 2);
        assert(form_pieces(body) =~= Seq::<Seq<u8>>::empty());
    } else {
        lemma_split_join(written, 0x26u8);
        lemma_filter_all(written, pred);
        assert(form_pieces(body) == written);
        assert forall|i: int| 0 <= i < pairs.len() implies read[i] == pairs[i] by {
            assert(form_pieces(body)[i] == written[i]);
            vstd::utf8::encode_utf8_valid_utf8(pairs[i].0);
            vstd::utf8::encode_utf8_valid_utf8(pairs[i].1);
            vstd::utf8::encode_utf8_decode_utf8(pairs[i].0);
            vstd::utf8::encode_utf8_decode_utf8(pairs[i].1);
        }
    }
    assert(read =~= pairs);
}

/// Filtering keeps a sequence whose elements all pass.
pub proof fn lemma_filter_all<T>(s: Seq<T>, pred: spec_fn(T) -> bool)
    requires
        forall|i: int| 0 <= i < s.len() ==> pred(#[trigger] s[i]),
    ensures
        s.filter(pred) == s,
    decreases s.len(),
{
    reveal(Seq::filter);
    if s.len() > 0 {
        assert forall|i: int| 0 <= i < s.drop_last().len() implies pred(#[trigger] s.drop_last()[i]) by {
            assert(s.drop_last()[i] == s[i]);
        }
        lemma_filter_all(s.drop_last(), pred);
        assert(s.drop_last().push(s.last()) =~= s);
    } else {
        assert(s.filter(pred) =~= s);
    }
}

} // verus!
