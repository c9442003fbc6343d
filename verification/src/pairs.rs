//! Key and value pairs, as a query string and a form body write them:
//! `key=value` items with `&` between them.

use vstd::prelude::*;
use crate::text::{
    head_of, keep_nonempty, nonempty_pieces, same_text, split, split_once, split_text, tail_of,
    texts,
};

verus! {

/// The views of a list of pairs, in order.
pub open spec fn pair_texts(pairs: Seq<(String, String)>) -> Seq<(Seq<char>, Seq<char>)> {
    Seq::new(pairs.len(), |i: int| (pairs[i].0@, pairs[i].1@))
}

/// The pair that one item writes: the key before its first `=`, the value
/// after it. An item without `=` is a key with an empty value.
pub open spec fn pair_of(item: Seq<char>) -> (Seq<char>, Seq<char>) {
    (
        head_of(item, '='),
        match tail_of(item, '=') {
            Some(value) => value,
            None => Seq::<char>::empty(),
        },
    )
}

/// The pairs that `s` writes, in order. Empty items are passed over. Keys and
/// values are left as written: nothing is decoded.
pub open spec fn pairs_of(s: Seq<char>) -> Seq<(Seq<char>, Seq<char>)> {
    let items = nonempty_pieces(split(s, '&'));
    Seq::new(items.len(), |i: int| pair_of(items[i]))
}

/// The value of the first pair with the key `key`.
pub open spec fn value_of(pairs: Seq<(Seq<char>, Seq<char>)>, key: Seq<char>) -> Option<Seq<char>>
    decreases pairs.len(),
{
    if pairs.len() == 0 {
        None
    } else if pairs[0].0 == key {
        Some(pairs[0].1)
    } else {
        value_of(pairs.drop_first(), key)
    }
}

/// Reads the pairs of a query string or a form body.
pub fn parse_pairs(s: &str) -> (pairs: Vec<(String, String)>)
    ensures
        pair_texts(pairs@) == pairs_of(s@),
{
    let items = keep_nonempty(split_text(s, '&'));
    let mut pairs: Vec<(String, String)> = Vec::new();
    let mut i: usize = 0;
    while i < items.len()
        invariant
            i <= items.len(),
            texts(items@) == nonempty_pieces(split(s@, '&')),
            pair_texts(pairs@) == pairs_of(s@).take(i as int),
        decreases items.len() - i,
    {
        let (key, tail) = split_once(items[i].as_str(), '=');
        let value = match tail {
            Some(value) => value,
            None => String::new(),
        };
        assert(texts(items@)[i as int] == items[i as int]@);
        assert((key@, value@) == pair_of(items[i as int]@));
        let ghost before = pairs@;
        pairs.push((key, value));
        assert(pair_texts(pairs@) == pair_texts(before).push(pair_of(items[i as int]@)));
        i = i + 1;
    }
    assert(pairs_of(s@).take(items@.len() as int) == pairs_of(s@));
    pairs
}

/// Looks a key up among the pairs.
pub fn find_value<'a>(pairs: &'a Vec<(String, String)>, key: &str) -> (r: Option<&'a String>)
    ensures
        r is Some <==> value_of(pair_texts(pairs@), key@) is Some,
        r matches Some(value) ==> value_of(pair_texts(pairs@), key@) == Some(value@),
{
    let mut i: usize = 0;
    assert(pair_texts(pairs@).skip(0) == pair_texts(pairs@));
    while i < pairs.len()
        invariant
            i <= pairs.len(),
            value_of(pair_texts(pairs@), key@) == value_of(
                pair_texts(pairs@).skip(i as int),
                key@,
            ),
        decreases pairs.len() - i,
    {
        let ghost rest = pair_texts(pairs@).skip(i as int);
        assert(rest[0] == (pairs[i as int].0@, pairs[i as int].1@));
        assert(rest.drop_first() == pair_texts(pairs@).skip(i + 1));
        if same_text(pairs[i].0.as_str(), key) {
            return Some(&pairs[i].1);
        }
        i = i + 1;
    }
    None
}

} // verus!
