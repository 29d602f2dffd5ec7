//! Splitting, joining and trimming: the vocabulary in which the rest of the
//! crate speaks of text and of octet strings.
use vstd::prelude::*;
use vstd::utf8::{decode_utf8, valid_utf8};

verus! {

/// Where `mark` first occurs in `s`; the length of `s` where it does not.
pub open spec fn first_at<T>(s: Seq<T>, mark: T) -> int
    decreases s.len(),
{
    if s.len() == 0 || s[0] == mark {
        0
    } else {
        1 + first_at(s.skip(1), mark)
    }
}

/// What stands in `s` before the first `mark`; all of `s` where there is none.
pub open spec fn before<T>(s: Seq<T>, mark: T) -> Seq<T> {
    s.take(first_at(s, mark))
}

/// What stands in `s` after the first `mark`; nothing where there is none.
pub open spec fn after<T>(s: Seq<T>, mark: T) -> Seq<T> {
    if s.contains(mark) {
        s.skip(first_at(s, mark) + 1)
    } else {
        Seq::empty()
    }
}

/// The pieces of `s` between its `mark`s, of which there is always at least one.
pub open spec fn split_on<T>(s: Seq<T>, mark: T) -> Seq<Seq<T>>
    decreases s.len(),
{
    if s.contains(mark) && after(s, mark).len() < s.len() {
        seq![before(s, mark)] + split_on(after(s, mark), mark)
    } else {
        seq![s]
    }
}

/// `pieces` in order, with one `mark` between each and the next.
pub open spec fn join_with<T>(pieces: Seq<Seq<T>>, mark: T) -> Seq<T>
    decreases pieces.len(),
{
    if pieces.len() == 0 {
        Seq::empty()
    } else if pieces.len() == 1 {
        pieces[0]
    } else {
        join_with(pieces.drop_last(), mark).push(mark) + pieces.last()
    }
}

/// The first occurrence is an occurrence, and none comes before it.
pub proof fn lemma_first_at<T>(s: Seq<T>, mark: T)
    ensures
        0 <= first_at(s, mark) <= s.len(),
        s.contains(mark) <==> first_at(s, mark) < s.len(),
        s.contains(mark) ==> s[first_at(s, mark)] == mark,
        forall|i: int| 0 <= i < first_at(s, mark) ==> s[i] != mark,
    decreases s.len(),
{
    if s.len() > 0 && s[0] != mark {
        let rest = s.skip(1);
        lemma_first_at(rest, mark);
        if s.contains(mark) {
            let i = choose|i: int| 0 <= i < s.len() && s[i] == mark;
            assert(rest[i - 1] == mark);
        }
        if rest.contains(mark) {
            assert(s[first_at(rest, mark) + 1] == mark);
        }
        assert forall|i: int| 0 <= i < first_at(s, mark) implies s[i] != mark by {
            if i > 0 {
                assert(rest[i - 1] == s[i]);
            }
        }
    } else if s.len() > 0 {
        assert(s.contains(s[0]));
    }
}

/// An index is the first occurrence if it holds the mark and none stands before it.
pub proof fn lemma_first_at_is<T>(s: Seq<T>, mark: T, at: int)
    requires
        0 <= at < s.len(),
        s[at] == mark,
        forall|i: int| 0 <= i < at ==> s[i] != mark,
    ensures
        first_at(s, mark) == at,
        s.contains(mark),
{
    lemma_first_at(s, mark);
    assert(s.contains(s[at]));
}

/// Text without the mark is all before it, with nothing after it.
pub proof fn lemma_unmarked<T>(s: Seq<T>, mark: T)
    requires
        !s.contains(mark),
    ensures
        before(s, mark) == s,
        after(s, mark) == Seq::<T>::empty(),
        split_on(s, mark) == seq![s],
{
    lemma_first_at(s, mark);
    assert(before(s, mark) =~= s);
}

/// What is put in front of a mark, where it holds no mark itself, is read back
/// in front of it, and what follows is read back after it.
pub proof fn lemma_marked<T>(front: Seq<T>, mark: T, back: Seq<T>)
    requires
        !front.contains(mark),
    ensures
        (front.push(mark) + back).contains(mark),
        before(front.push(mark) + back, mark) == front,
        after(front.push(mark) + back, mark) == back,
        split_on(front.push(mark) + back, mark) == seq![front] + split_on(back, mark),
{
    let whole = front.push(mark) + back;
    assert(whole[front.len() as int] == mark);
    assert forall|i: int| 0 <= i < front.len() implies whole[i] != mark by {
        assert(front.contains(front[i]));
    }
    lemma_first_at_is(whole, mark, front.len() as int);
    assert(before(whole, mark) =~= front);
    assert(after(whole, mark) =~= back);
}

/// Joining from the left and joining from the right give the same.
pub proof fn lemma_join_first<T>(pieces: Seq<Seq<T>>, mark: T)
    requires
        pieces.len() > 1,
    ensures
        join_with(pieces, mark) == pieces[0].push(mark) + join_with(pieces.skip(1), mark),
    decreases pieces.len(),
{
    let rest = pieces.skip(1);
    if pieces.len() == 2 {
        assert(pieces.drop_last() =~= seq![pieces[0]]);
        assert(rest =~= seq![pieces[1]]);
        assert(join_with(pieces.drop_last(), mark) == pieces[0]);
        assert(join_with(rest, mark) == pieces[1]);
    } else {
        lemma_join_first(pieces.drop_last(), mark);
        assert(pieces.drop_last().skip(1) =~= rest.drop_last());
        assert(join_with(pieces, mark) =~= pieces[0].push(mark) + join_with(rest, mark));
    }
}

/// Splitting undoes joining, for pieces that hold no mark themselves.
pub proof fn lemma_split_join<T>(pieces: Seq<Seq<T>>, mark: T)
    requires
        pieces.len() > 0,
        forall|i: int| 0 <= i < pieces.len() ==> !(#[trigger] pieces[i]).contains(mark),
    ensures
        split_on(join_with(pieces, mark), mark) == pieces,
    decreases pieces.len(),
{
    if pieces.len() == 1 {
        lemma_unmarked(pieces[0], mark);
        assert(pieces =~= seq![pieces[0]]);
    } else {
        let rest = pieces.skip(1);
        assert forall|i: int| 0 <= i < rest.len() implies !(#[trigger] rest[i]).contains(mark) by {
            assert(rest[i] == pieces[i + 1]);
        }
        lemma_join_first(pieces, mark);
        lemma_marked(pieces[0], mark, join_with(rest, mark));
        lemma_split_join(rest, mark);
        assert(pieces =~= seq![pieces[0]] + rest);
    }
}

/// The ASCII letters `A` to `Z` made small, every other character as it is.
pub open spec fn lower_char(c: char) -> char {
    if 'A' <= c <= 'Z' {
        ((c as u32) + 32) as char
    } else {
        c
    }
}

/// `s` with its ASCII capital letters made small.
pub open spec fn lower(s: Seq<char>) -> Seq<char> {
    s.map_values(|c: char| lower_char(c))
}

/// The characters with the Unicode property `White_Space`.
pub open spec fn is_white_space(c: char) -> bool {
    let u = c as u32;
    ||| 0x09 <= u <= 0x0d
    ||| u == 0x20
    ||| u == 0x85
    ||| u == 0xa0
    ||| u == 0x1680
    ||| 0x2000 <= u <= 0x200a
    ||| u == 0x2028
    ||| u == 0x2029
    ||| u == 0x202f
    ||| u == 0x205f
    ||| u == 0x3000
}

/// `s` without the white space at its end.
pub open spec fn trimmed_end(s: Seq<char>) -> Seq<char>
    decreases s.len(),
{
    if s.len() > 0 && is_white_space(s.last()) {
        trimmed_end(s.drop_last())
    } else {
        s
    }
}

/// `s` without the white space at its start.
pub open spec fn trimmed_start(s: Seq<char>) -> Seq<char>
    decreases s.len(),
{
    if s.len() > 0 && is_white_space(s[0]) {
        trimmed_start(s.skip(1))
    } else {
        s
    }
}

/// `s` without the white space at either end.
pub open spec fn trimmed(s: Seq<char>) -> Seq<char> {
    trimmed_start(trimmed_end(s))
}

/// `str::trim_end`: the text without its trailing white space.
#[verifier::external_body]
pub(crate) fn trim_end(s: &str) -> (r: &str)
    ensures
        r@ == trimmed_end(s@),
{
    s.trim_end()
}

/// `str::trim`: the text without its leading and trailing white space.
#[verifier::external_body]
pub(crate) fn trim(s: &str) -> (r: &str)
    ensures
        r@ == trimmed(s@),
{
    s.trim()
}

/// `str::split_once`: what stands before and after the first `mark`, or
/// nothing where the text holds no `mark`.
#[verifier::external_body]
pub(crate) fn split_once(s: &str, mark: char) -> (r: Option<(&str, &str)>)
    ensures
        r is Some <==> s@.contains(mark),
        r matches Some(halves) ==> halves.0@ == before(s@, mark) && halves.1@ == after(s@, mark),
{
    s.split_once(mark)
}

/// `str::replace` with an empty replacement: the text without any `unwanted`.
#[verifier::external_body]
pub(crate) fn without(s: &str, unwanted: char) -> (r: String)
    ensures
        r@ == s@.filter(|c: char| c != unwanted),
{
    s.replace(unwanted, "")
}

/// `std::str::from_utf8`: the text that the octets encode, or an error where
/// they are not UTF-8.
#[verifier::external_body]
pub(crate) fn decode_text(octets: &[u8]) -> (r: Result<&str, std::str::Utf8Error>)
    ensures
        r is Ok <==> valid_utf8(octets@),
        r matches Ok(text) ==> text@ == decode_utf8(octets@),
{
    std::str::from_utf8(octets)
}

/// Whether two texts are the same, character for character.
pub(crate) fn same_text(a: &str, b: &str) -> (r: bool)
    ensures
        r == (a@ == b@),
{
    a.to_owned() == b.to_owned()
}

/// The pieces joined with one `mark` between each and the next.
pub fn join_text(pieces: &Vec<String>, mark: &str) -> (r: String)
    requires
        mark@.len() == 1,
    ensures
        r@ == join_with(pieces@.map_values(|p: String| p@), mark@[0]),
{
    let ghost views = pieces@.map_values(|p: String| p@);
    let mut joined = String::new();
    let mut i: usize = 0;
    while i < pieces.len()
        invariant
            i <= pieces.len(),
            views == pieces@.map_values(|p: String| p@),
            mark@.len() == 1,
            joined@ == join_with(views.take(i as int), mark@[0]),
        decreases pieces.len() - i,
    {
        proof {
            assert(views.take(i + 1).drop_last() =~= views.take(i as int));
        }
        if i > 0 {
            joined.append(mark);
        }
        joined.append(pieces[i].as_str());
        proof {
            if i > 0 {
                assert(joined@ =~= join_with(views.take(i as int), mark@[0]).push(mark@[0]) + views[i as int]);
            } else {
                assert(joined@ =~= views[0]);
            }
        }
        i += 1;
    }
    proof {
        assert(views.take(i as int) =~= views);
    }
    joined
}

/// The text cut at every `mark`.
pub fn split_text(text: &str, mark: char) -> (r: Vec<String>)
    ensures
        r@.map_values(|p: String| p@) == split_on(text@, mark),
{
    let mut pieces: Vec<String> = Vec::new();
    let mut rest: String = text.to_owned();
    loop
        invariant
            pieces@.map_values(|p: String| p@) + split_on(rest@, mark) == split_on(text@, mark),
        decreases rest@.len(),
    {
        match split_once(rest.as_str(), mark) {
            Some((front, back)) => {
                let front_text: String = front.to_owned();
                let back_text: String = back.to_owned();
                let ghost so_far = pieces@.map_values(|p: String| p@);
                proof {
                    lemma_first_at(rest@, mark);
                    assert(so_far + split_on(rest@, mark) =~= so_far.push(front_text@) + split_on(back_text@, mark));
                }
                pieces.push(front_text);
                proof {
                    assert(pieces@.map_values(|p: String| p@) =~= so_far.push(front_text@));
                }
                rest = back_text;
            },
            None => {
                let ghost so_far = pieces@.map_values(|p: String| p@);
                pieces.push(rest);
                proof {
                    assert(pieces@.map_values(|p: String| p@) =~= so_far + seq![rest@]);
                }
                return pieces;
            },
        }
    }
}

} // verus!
