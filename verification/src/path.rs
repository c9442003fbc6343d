//! Request paths: their segments, and the resolution of a captured path to a
//! location below a root directory.

use vstd::prelude::*;
use crate::text::{
    has_char, join, keep_nonempty, lemma_join_first, lemma_nonempty_all, lemma_nonempty_concat,
    lemma_split_concat, lemma_split_join, nonempty_pieces, same_text, split, split_text, texts,
};

verus! {

/// The segments of a request path: its non-empty pieces between slashes.
pub open spec fn segments_of(path: Seq<char>) -> Seq<Seq<char>> {
    nonempty_pieces(split(path, '/'))
}

/// A name that may stand in a path below a root: not empty, neither `.` nor
/// `..`, and free of separators.
pub open spec fn is_plain_name(name: Seq<char>) -> bool {
    &&& name.len() > 0
    &&& name != "."@
    &&& name != ".."@
    &&& !name.contains('/')
    &&& !name.contains('\\')
}

/// The directory reached from `dir` by one more segment. `..` leads up, and
/// stays where it is at the root; `.` and the empty segment lead nowhere; a
/// segment that holds a separator leads to no place at all.
pub open spec fn descend(dir: Seq<Seq<char>>, segment: Seq<char>) -> Option<Seq<Seq<char>>> {
    if segment == ".."@ {
        if dir.len() > 0 {
            Some(dir.drop_last())
        } else {
            Some(dir)
        }
    } else if segment == "."@ || segment.len() == 0 {
        Some(dir)
    } else if segment.contains('/') || segment.contains('\\') {
        None
    } else {
        Some(dir.push(segment))
    }
}

/// The location below the root that `segments` lead to, as the names on the
/// way down from the root.
pub open spec fn resolved(segments: Seq<Seq<char>>) -> Option<Seq<Seq<char>>>
    decreases segments.len(),
{
    if segments.len() == 0 {
        Some(Seq::<Seq<char>>::empty())
    } else {
        match resolved(segments.drop_last()) {
            None => None,
            Some(dir) => descend(dir, segments.last()),
        }
    }
}

/// Every name of a resolved location is plain.
pub open spec fn inside_root(location: Seq<Seq<char>>) -> bool {
    forall|i: int| 0 <= i < location.len() ==> is_plain_name(#[trigger] location[i])
}

/// Whatever the segments, what they resolve to lies below the root: no name on
/// the way is `..`, and none holds a separator.
pub proof fn lemma_resolved_inside_root(segments: Seq<Seq<char>>)
    ensures
        resolved(segments) matches Some(location) ==> inside_root(location),
    decreases segments.len(),
{
    if segments.len() > 0 {
        lemma_resolved_inside_root(segments.drop_last());
    }
}

/// A text that can be one segment of a path: not empty, and without a slash.
pub open spec fn is_segment(s: Seq<char>) -> bool {
    s.len() > 0 && !s.contains('/')
}

/// Every text of the list can be one segment of a path.
pub open spec fn all_segments(segments: Seq<Seq<char>>) -> bool {
    forall|i: int| 0 <= i < segments.len() ==> is_segment(#[trigger] segments[i])
}

/// The path that spells the segments out: a slash, and the segments with
/// slashes between them.
pub open spec fn path_of(segments: Seq<Seq<char>>) -> Seq<char> {
    seq!['/'] + join(segments, '/')
}

/// A slash at the end of a path adds no segment.
pub proof fn lemma_trailing_slash(path: Seq<char>)
    ensures
        segments_of(path.push('/')) == segments_of(path),
{
    assert(path.push('/').drop_last() == path);
    assert(split(path.push('/'), '/').drop_last() == split(path, '/'));
}

/// The path that spells segments out has exactly these segments.
pub proof fn lemma_segments_of_path(segments: Seq<Seq<char>>)
    requires
        all_segments(segments),
    ensures
        segments_of(path_of(segments)) == segments,
{
    let nothing = Seq::<char>::empty();
    let joined = join(segments, '/');
    assert(path_of(segments) == nothing.push('/') + joined);
    lemma_split_concat(nothing, joined, '/');
    assert(split(nothing, '/') == seq![nothing]);
    lemma_nonempty_concat(seq![nothing], split(joined, '/'));
    assert(nonempty_pieces(seq![nothing]) == Seq::<Seq<char>>::empty()) by {
        reveal_with_fuel(nonempty_pieces, 2);
    }
    if segments.len() == 0 {
        assert(split(joined, '/') == seq![nothing]);
    } else {
        lemma_split_join(segments, '/');
        lemma_nonempty_all(segments);
    }
    assert(Seq::<Seq<char>>::empty() + segments == segments);
}

/// The segments of a path that names a first segment and, after a slash,
/// spells more segments out. There may be none of those: the slash adds
/// nothing by itself.
pub proof fn lemma_segments_below(name: Seq<char>, more: Seq<Seq<char>>)
    requires
        is_segment(name),
        all_segments(more),
    ensures
        segments_of((seq!['/'] + name).push('/') + join(more, '/')) == seq![name] + more,
{
    let path = (seq!['/'] + name).push('/') + join(more, '/');
    if more.len() == 0 {
        assert(path == (seq!['/'] + name).push('/'));
        lemma_trailing_slash(seq!['/'] + name);
        assert(join(seq![name], '/') == name);
        assert(all_segments(seq![name]));
        lemma_segments_of_path(seq![name]);
        assert(seq![name] + more == seq![name]);
    } else {
        let all = seq![name] + more;
        lemma_join_first(name, more, '/');
        assert(path == path_of(all));
        assert(all_segments(all)) by {
            assert forall|i: int| 0 <= i < all.len() implies is_segment(#[trigger] all[i]) by {
                if i > 0 {
                    assert(all[i] == more[i - 1]);
                }
            }
        }
        lemma_segments_of_path(all);
    }
}

/// Cuts a request path into its segments.
pub fn path_segments(path: &str) -> (segments: Vec<String>)
    ensures
        texts(segments@) == segments_of(path@),
{
    keep_nonempty(split_text(path, '/'))
}

/// Resolves the segments of a captured path below a root directory.
pub fn resolve(segments: &Vec<String>) -> (r: Option<Vec<String>>)
    ensures
        r is Some <==> resolved(texts(segments@)) is Some,
        r matches Some(location) ==> resolved(texts(segments@)) == Some(texts(location@))
            && inside_root(texts(location@)),
{
    let mut location: Vec<String> = Vec::new();
    let mut i: usize = 0;
    while i < segments.len()
        invariant
            i <= segments.len(),
            resolved(texts(segments@).take(i as int)) == Some(texts(location@)),
        decreases segments.len() - i,
    {
        let ghost upto = texts(segments@).take(i + 1);
        let ghost before = location@;
        assert(upto.drop_last() == texts(segments@).take(i as int));
        assert(upto.last() == segments[i as int]@);
        let segment = segments[i].as_str();
        if same_text(segment, "..") {
            if location.len() > 0 {
                location.pop();
                assert(texts(location@) == texts(before).drop_last());
            }
        } else if same_text(segment, ".") || same_text(segment, "") {
            proof {
                reveal_strlit("");
            }
        } else if has_char(segment, '/') || has_char(segment, '\\') {
            proof {
                reveal_strlit("");
                assert(resolved(upto) is None);
                lemma_resolved_none_stays(texts(segments@), i + 1);
            }
            return None;
        } else {
            proof {
                reveal_strlit("");
                assert(segment@.len() == 0 ==> segment@ =~= ""@);
            }
            location.push(segments[i].clone());
            assert(texts(location@) == texts(before).push(segments[i as int]@));
        }
        i = i + 1;
    }
    proof {
        assert(texts(segments@).take(segments@.len() as int) == texts(segments@));
        lemma_resolved_inside_root(texts(segments@));
    }
    Some(location)
}

/// Once a beginning of the segments leads nowhere, so do all of them.
proof fn lemma_resolved_none_stays(segments: Seq<Seq<char>>, n: int)
    requires
        0 <= n <= segments.len(),
        resolved(segments.take(n)) is None,
    ensures
        resolved(segments) is None,
    decreases segments.len(),
{
    if n == segments.len() {
        assert(segments.take(n) == segments);
    } else {
        assert(segments.drop_last().take(n) == segments.take(n));
        lemma_resolved_none_stays(segments.drop_last(), n);
    }
}

/// The location as a relative path, its names joined by slashes.
pub open spec fn relative_path(location: Seq<Seq<char>>) -> Seq<char> {
    join(location, '/')
}

} // verus!
