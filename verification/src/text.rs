//! Plain text utilities shared by the parsers: splitting, joining and searching
//! sequences of characters.

use vstd::prelude::*;
use vstd::std_specs::iter::IteratorSpec;
use vstd::string::{StrSliceExecFns, StringExecFns};

verus! {

/// The views of a list of strings, in order.
pub open spec fn texts(items: Seq<String>) -> Seq<Seq<char>> {
    Seq::new(items.len(), |i: int| items[i]@)
}

/// The pieces of `s` between occurrences of `sep`. A text of `n` separators has
/// `n + 1` pieces, some of which may be empty.
pub open spec fn split(s: Seq<char>, sep: char) -> Seq<Seq<char>>
    decreases s.len(),
{
    if s.len() == 0 {
        seq![Seq::<char>::empty()]
    } else {
        let before = split(s.drop_last(), sep);
        if s.last() == sep {
            before.push(Seq::<char>::empty())
        } else {
            before.drop_last().push(before.last().push(s.last()))
        }
    }
}

/// The pieces that are not empty, in order.
pub open spec fn nonempty_pieces(pieces: Seq<Seq<char>>) -> Seq<Seq<char>>
    decreases pieces.len(),
{
    if pieces.len() == 0 {
        pieces
    } else {
        let before = nonempty_pieces(pieces.drop_last());
        if pieces.last().len() > 0 {
            before.push(pieces.last())
        } else {
            before
        }
    }
}

/// The part of `s` before the first `sep`: all of `s` where it has none.
pub open spec fn head_of(s: Seq<char>, sep: char) -> Seq<char> {
    split(s, sep).first()
}

/// The part of `s` after the first `sep`, if it has one.
pub open spec fn tail_of(s: Seq<char>, sep: char) -> Option<Seq<char>> {
    if split(s, sep).len() > 1 {
        Some(join(split(s, sep).drop_first(), sep))
    } else {
        None
    }
}

/// The pieces joined again, with `sep` between neighbours.
pub open spec fn join(pieces: Seq<Seq<char>>, sep: char) -> Seq<char>
    decreases pieces.len(),
{
    if pieces.len() == 0 {
        Seq::<char>::empty()
    } else if pieces.len() == 1 {
        pieces[0]
    } else {
        join(pieces.drop_last(), sep).push(sep) + pieces.last()
    }
}

/// `needle` occurs in `hay` as a contiguous run of characters.
pub open spec fn occurs_in(needle: Seq<char>, hay: Seq<char>) -> bool {
    exists|i: int|
        0 <= i && i + needle.len() <= hay.len() && #[trigger] hay.subrange(
            i,
            i + needle.len(),
        ) == needle
}

/// Appends one character to a string. Calls `String::push`, which is documented
/// to append the given `char` to the end of the string.
#[verifier::external_body]
pub(crate) fn push_char(s: &mut String, c: char)
    ensures
        final(s)@ == old(s)@.push(c),
{
    s.push(c)
}

/// The characters of `s`, one by one.
pub fn chars_of(s: &str) -> (chars: Vec<char>)
    ensures
        chars@ == s@,
{
    let mut chars: Vec<char> = Vec::new();
    for c in it: s.chars()
        invariant
            it.seq() == s@,
            chars@ == s@.take(it.index() as int),
    {
        chars.push(c);
    }
    chars
}

/// Every text splits into one piece at least.
pub proof fn lemma_split_nonempty(s: Seq<char>, sep: char)
    ensures
        split(s, sep).len() >= 1,
    decreases s.len(),
{
    if s.len() > 0 {
        lemma_split_nonempty(s.drop_last(), sep);
    }
}

/// A text without the separator is its own single piece.
pub proof fn lemma_split_plain(s: Seq<char>, sep: char)
    requires
        !s.contains(sep),
    ensures
        split(s, sep) == seq![s],
    decreases s.len(),
{
    if s.len() > 0 {
        let front = s.drop_last();
        assert forall|i: int| 0 <= i < front.len() implies front[i] != sep by {
            assert(s[i] == front[i]);
        }
        lemma_split_plain(front, sep);
        assert(s[s.len() - 1] != sep);
        assert(front.push(s.last()) == s);
        assert(seq![front].drop_last().push(s) == seq![s]);
    } else {
        assert(s == Seq::<char>::empty());
    }
}

/// Splitting goes through a separator: the pieces of what stands before it,
/// followed by the pieces of what stands after it.
pub proof fn lemma_split_concat(a: Seq<char>, b: Seq<char>, sep: char)
    ensures
        split(a.push(sep) + b, sep) == split(a, sep) + split(b, sep),
    decreases b.len(),
{
    let whole = a.push(sep) + b;
    let x = split(a, sep);
    if b.len() == 0 {
        assert(whole == a.push(sep));
        assert(whole.drop_last() == a);
        assert(x.push(Seq::<char>::empty()) == x + seq![Seq::<char>::empty()]);
    } else {
        let y = split(b.drop_last(), sep);
        lemma_split_concat(a, b.drop_last(), sep);
        lemma_split_nonempty(b.drop_last(), sep);
        assert(whole.drop_last() == a.push(sep) + b.drop_last());
        assert(whole.last() == b.last());
        if b.last() == sep {
            assert((x + y).push(Seq::<char>::empty()) == x + y.push(Seq::<char>::empty()));
        } else {
            assert((x + y).drop_last().push((x + y).last().push(b.last())) == x
                + y.drop_last().push(y.last().push(b.last())));
        }
    }
}

/// Pieces that hold no separator come back when their join is split.
pub proof fn lemma_split_join(pieces: Seq<Seq<char>>, sep: char)
    requires
        pieces.len() >= 1,
        forall|i: int| 0 <= i < pieces.len() ==> !(#[trigger] pieces[i]).contains(sep),
    ensures
        split(join(pieces, sep), sep) == pieces,
    decreases pieces.len(),
{
    if pieces.len() == 1 {
        lemma_split_plain(pieces[0], sep);
        assert(seq![pieces[0]] == pieces);
    } else {
        let front = pieces.drop_last();
        assert forall|i: int| 0 <= i < front.len() implies !(#[trigger] front[i]).contains(sep) by {
            assert(front[i] == pieces[i]);
        }
        lemma_split_join(front, sep);
        lemma_split_concat(join(front, sep), pieces.last(), sep);
        lemma_split_plain(pieces.last(), sep);
        assert(front + seq![pieces.last()] == pieces);
    }
}

/// The pieces that are not empty, of two lists one after the other.
pub proof fn lemma_nonempty_concat(x: Seq<Seq<char>>, y: Seq<Seq<char>>)
    ensures
        nonempty_pieces(x + y) == nonempty_pieces(x) + nonempty_pieces(y),
    decreases y.len(),
{
    if y.len() == 0 {
        assert(x + y == x);
        assert(nonempty_pieces(x) + nonempty_pieces(y) == nonempty_pieces(x));
    } else {
        lemma_nonempty_concat(x, y.drop_last());
        assert((x + y).drop_last() == x + y.drop_last());
        assert((x + y).last() == y.last());
        let kept = nonempty_pieces(x) + nonempty_pieces(y.drop_last());
        if y.last().len() > 0 {
            assert(kept.push(y.last()) == nonempty_pieces(x) + nonempty_pieces(
                y.drop_last(),
            ).push(y.last()));
        }
    }
}

/// Where no piece is empty, none is dropped.
pub proof fn lemma_nonempty_all(pieces: Seq<Seq<char>>)
    requires
        forall|i: int| 0 <= i < pieces.len() ==> (#[trigger] pieces[i]).len() > 0,
    ensures
        nonempty_pieces(pieces) == pieces,
    decreases pieces.len(),
{
    if pieces.len() > 0 {
        let front = pieces.drop_last();
        assert forall|i: int| 0 <= i < front.len() implies (#[trigger] front[i]).len() > 0 by {
            assert(front[i] == pieces[i]);
        }
        lemma_nonempty_all(front);
        assert(front.push(pieces.last()) == pieces);
    }
}

/// A text occurs in whatever ends with it.
pub proof fn lemma_occurs_at_end(before: Seq<char>, needle: Seq<char>)
    ensures
        occurs_in(needle, before + needle),
{
    let hay = before + needle;
    assert(hay.subrange(before.len() as int, (before.len() + needle.len()) as int) == needle);
}

/// Joining a first piece and more pieces: the first piece alone where there
/// are no more, else the first piece, the separator and the join of the
/// others.
pub proof fn lemma_join_first(first: Seq<char>, more: Seq<Seq<char>>, sep: char)
    ensures
        join(seq![first] + more, sep) == if more.len() == 0 {
            first
        } else {
            first.push(sep) + join(more, sep)
        },
    decreases more.len(),
{
    let all = seq![first] + more;
    if more.len() == 0 {
        assert(all == seq![first]);
    } else {
        assert(all.drop_last() == seq![first] + more.drop_last());
        assert(all.last() == more.last());
        lemma_join_first(first, more.drop_last(), sep);
        if more.len() == 1 {
            assert(more.drop_last().len() == 0);
            assert(join(more, sep) == more.last());
            assert(first.push(sep) + more.last() == first.push(sep) + join(more, sep));
        } else {
            assert((first.push(sep) + join(more.drop_last(), sep)).push(sep) + more.last()
                == first.push(sep) + (join(more.drop_last(), sep).push(sep) + more.last()));
        }
    }
}

/// No piece of a split holds the separator.
pub proof fn lemma_split_lacks_sep(s: Seq<char>, sep: char)
    ensures
        forall|i: int|
            0 <= i < split(s, sep).len() ==> !(#[trigger] split(s, sep)[i]).contains(sep),
    decreases s.len(),
{
    if s.len() > 0 {
        let before = split(s.drop_last(), sep);
        lemma_split_lacks_sep(s.drop_last(), sep);
        lemma_split_nonempty(s.drop_last(), sep);
        let pieces = split(s, sep);
        assert forall|i: int| 0 <= i < pieces.len() implies !(#[trigger] pieces[i]).contains(
            sep,
        ) by {
            if i < pieces.len() - 1 {
                assert(pieces[i] == before[i]);
            } else if s.last() != sep {
                let grown = before.last().push(s.last());
                assert forall|k: int| 0 <= k < grown.len() implies grown[k] != sep by {
                    if k < grown.len() - 1 {
                        assert(grown[k] == before.last()[k]);
                    }
                }
            }
        }
    }
}

/// The pieces of a split, joined again, are the text that was split. With
/// `lemma_split_lacks_sep` and `lemma_split_join` this says what `split` is:
/// the one way to write a text as pieces without the separator, joined by it.
pub proof fn lemma_join_split(s: Seq<char>, sep: char)
    ensures
        join(split(s, sep), sep) == s,
    decreases s.len(),
{
    if s.len() == 0 {
        assert(split(s, sep)[0] == s);
    } else {
        let before = split(s.drop_last(), sep);
        lemma_join_split(s.drop_last(), sep);
        lemma_split_nonempty(s.drop_last(), sep);
        let pieces = split(s, sep);
        assert(s.drop_last().push(s.last()) == s);
        if s.last() == sep {
            assert(pieces.drop_last() == before);
            assert(join(before, sep).push(sep) + Seq::<char>::empty() == join(before, sep).push(
                sep,
            ));
        } else if before.len() == 1 {
            assert(before[0] == join(before, sep));
        } else {
            assert(pieces.drop_last() == before.drop_last());
            assert(join(before.drop_last(), sep).push(sep) + before.last().push(s.last()) == (join(
                before.drop_last(),
                sep,
            ).push(sep) + before.last()).push(s.last()));
        }
    }
}

/// A text is what stands before its first separator, the separator, and what
/// stands after it; and all of it stands before where it has no separator.
pub proof fn lemma_cut(s: Seq<char>, sep: char)
    ensures
        !head_of(s, sep).contains(sep),
        match tail_of(s, sep) {
            Some(tail) => s == head_of(s, sep).push(sep) + tail,
            None => s == head_of(s, sep),
        },
{
    let pieces = split(s, sep);
    lemma_split_nonempty(s, sep);
    lemma_split_lacks_sep(s, sep);
    lemma_join_split(s, sep);
    lemma_join_first(pieces.first(), pieces.drop_first(), sep);
    assert(seq![pieces.first()] + pieces.drop_first() == pieces);
}

/// Splits `s` at every occurrence of `sep`.
pub fn split_text(s: &str, sep: char) -> (pieces: Vec<String>)
    ensures
        texts(pieces@) == split(s@, sep),
{
    let mut pieces: Vec<String> = Vec::new();
    let mut current: String = String::new();
    for c in it: s.chars()
        invariant
            it.seq() == s@,
            texts(pieces@).push(current@) == split(s@.take(it.index() as int), sep),
    {
        let ghost idx = it.index() as int;
        let ghost before = split(s@.take(idx), sep);
        proof {
            assert(s@.take(idx + 1).drop_last() == s@.take(idx));
            assert(s@.take(idx + 1).last() == c);
            assert(before.drop_last() == texts(pieces@));
            assert(before.last() == current@);
        }
        if c == sep {
            let ghost old_pieces = pieces@;
            pieces.push(current);
            current = String::new();
            assert(texts(pieces@) == texts(old_pieces).push(pieces@.last()@));
        } else {
            push_char(&mut current, c);
        }
    }
    assert(s@.take(s@.len() as int) == s@);
    let ghost old_pieces = pieces@;
    pieces.push(current);
    assert(texts(pieces@) == texts(old_pieces).push(pieces@.last()@));
    pieces
}

/// Drops the empty strings from `pieces`.
pub fn keep_nonempty(pieces: Vec<String>) -> (kept: Vec<String>)
    ensures
        texts(kept@) == nonempty_pieces(texts(pieces@)),
{
    let mut kept: Vec<String> = Vec::new();
    let mut i: usize = 0;
    while i < pieces.len()
        invariant
            i <= pieces.len(),
            texts(kept@) == nonempty_pieces(texts(pieces@).take(i as int)),
        decreases pieces.len() - i,
    {
        let ghost upto = texts(pieces@).take(i + 1);
        assert(upto.drop_last() == texts(pieces@).take(i as int));
        assert(upto.last() == pieces[i as int]@);
        if pieces[i].as_str().unicode_len() > 0 {
            let ghost before = kept@;
            kept.push(pieces[i].clone());
            assert(texts(kept@) == texts(before).push(pieces[i as int]@));
        }
        i = i + 1;
    }
    assert(texts(pieces@).take(pieces@.len() as int) == texts(pieces@));
    kept
}

/// Whether two strings hold the same text.
pub fn same_text(a: &str, b: &str) -> (same: bool)
    ensures
        same == (a@ == b@),
{
    let left = chars_of(a);
    let right = chars_of(b);
    if left.len() != right.len() {
        return false;
    }
    let mut i: usize = 0;
    while i < left.len()
        invariant
            i <= left.len(),
            left.len() == right.len(),
            left@ == a@,
            right@ == b@,
            forall|k: int| 0 <= k < i ==> left[k] == right[k],
        decreases left.len() - i,
    {
        if left[i] != right[i] {
            return false;
        }
        i = i + 1;
    }
    assert(a@ =~= b@);
    true
}

/// Whether `c` occurs in `s`.
pub fn has_char(s: &str, c: char) -> (found: bool)
    ensures
        found == s@.contains(c),
{
    let chars = chars_of(s);
    let mut i: usize = 0;
    while i < chars.len()
        invariant
            i <= chars.len(),
            chars@ == s@,
            forall|k: int| 0 <= k < i ==> chars[k] != c,
        decreases chars.len() - i,
    {
        if chars[i] == c {
            return true;
        }
        i = i + 1;
    }
    false
}

/// Whether `text` is one of `items`.
pub fn has_text(items: &Vec<String>, text: &str) -> (found: bool)
    ensures
        found == texts(items@).contains(text@),
{
    let mut i: usize = 0;
    while i < items.len()
        invariant
            i <= items.len(),
            forall|k: int| 0 <= k < i ==> texts(items@)[k] != text@,
        decreases items.len() - i,
    {
        if same_text(items[i].as_str(), text) {
            assert(texts(items@)[i as int] == text@);
            return true;
        }
        i = i + 1;
    }
    false
}

/// Cuts `s` at its first `sep`: what stands before it, and what stands after
/// it where there is one.
pub fn split_once(s: &str, sep: char) -> (parts: (String, Option<String>))
    ensures
        parts.0@ == head_of(s@, sep),
        parts.1 is Some <==> tail_of(s@, sep) is Some,
        parts.1 matches Some(t) ==> tail_of(s@, sep) == Some(t@),
{
    let mut pieces = split_text(s, sep);
    proof {
        lemma_split_nonempty(s@, sep);
    }
    let ghost all = pieces@;
    let head = pieces.remove(0);
    assert(texts(pieces@) == texts(all).drop_first());
    if pieces.len() > 0 {
        let tail = join_text(&pieces, sep);
        (head, Some(tail))
    } else {
        (head, None)
    }
}

/// Joins `pieces`, writing `sep` between neighbours.
pub fn join_text(pieces: &Vec<String>, sep: char) -> (joined: String)
    ensures
        joined@ == join(texts(pieces@), sep),
{
    let mut joined: String = String::new();
    let mut i: usize = 0;
    while i < pieces.len()
        invariant
            i <= pieces.len(),
            joined@ == join(texts(pieces@).take(i as int), sep),
        decreases pieces.len() - i,
    {
        let ghost upto = texts(pieces@).take(i + 1);
        assert(upto.drop_last() == texts(pieces@).take(i as int));
        assert(upto.last() == pieces[i as int]@);
        if i > 0 {
            push_char(&mut joined, sep);
        }
        joined.append(pieces[i].as_str());
        i = i + 1;
    }
    assert(texts(pieces@).take(pieces@.len() as int) == texts(pieces@));
    joined
}

} // verus!
