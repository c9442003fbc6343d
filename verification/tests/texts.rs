use request_router::pairs::{find_value, parse_pairs};
use request_router::path::{path_segments, resolve};
use request_router::text::{
    chars_of, has_char, join_text, keep_nonempty, same_text, split_once, split_text,
};

fn strings(items: &[&str]) -> Vec<String> {
    items.iter().map(|s| s.to_string()).collect()
}

#[test]
fn chars_are_taken_one_by_one() {
    assert_eq!(chars_of("aé你"), vec!['a', 'é', '你']);
    assert_eq!(chars_of(""), Vec::<char>::new());
}

#[test]
fn split_cuts_at_every_separator() {
    assert_eq!(split_text("a/b/c", '/'), strings(&["a", "b", "c"]));
    assert_eq!(split_text("abc", '/'), strings(&["abc"]));
    assert_eq!(split_text("", '/'), strings(&[""]));
    assert_eq!(split_text("/", '/'), strings(&["", ""]));
    assert_eq!(split_text("/a//b/", '/'), strings(&["", "a", "", "b", ""]));
    assert_eq!(split_text("é&你", '&'), strings(&["é", "你"]));
}

#[test]
fn split_agrees_with_std() {
    for sample in ["", "a", "/", "//", "a/", "/a", "a/b", "a//b", "/a/b/", "é/你//"] {
        let theirs: Vec<String> = sample.split('/').map(|s| s.to_string()).collect();
        assert_eq!(split_text(sample, '/'), theirs, "sample {:?}", sample);
    }
}

#[test]
fn join_puts_the_separator_between() {
    assert_eq!(join_text(&strings(&["a", "b", "c"]), '/'), "a/b/c");
    assert_eq!(join_text(&strings(&["a"]), '/'), "a");
    assert_eq!(join_text(&strings(&[]), '/'), "");
    assert_eq!(join_text(&strings(&["", ""]), '/'), "/");
    assert_eq!(join_text(&strings(&["", "a", ""]), '&'), "&a&");
}

#[test]
fn join_undoes_split() {
    for sample in ["", "a", "/", "a/b", "/a//b/", "é/你"] {
        assert_eq!(join_text(&split_text(sample, '/'), '/'), sample);
    }
}

#[test]
fn nonempty_pieces_are_kept() {
    assert_eq!(keep_nonempty(strings(&["", "a", "", "b", ""])), strings(&["a", "b"]));
    assert_eq!(keep_nonempty(strings(&["", ""])), strings(&[]));
    assert_eq!(keep_nonempty(strings(&[])), strings(&[]));
}

#[test]
fn split_once_cuts_at_the_first_separator() {
    assert_eq!(split_once("a=b", '='), ("a".to_string(), Some("b".to_string())));
    assert_eq!(split_once("a=b=c", '='), ("a".to_string(), Some("b=c".to_string())));
    assert_eq!(split_once("a", '='), ("a".to_string(), None));
    assert_eq!(split_once("a=", '='), ("a".to_string(), Some("".to_string())));
    assert_eq!(split_once("=b", '='), ("".to_string(), Some("b".to_string())));
    assert_eq!(split_once("", '='), ("".to_string(), None));
    assert_eq!(split_once("==", '='), ("".to_string(), Some("=".to_string())));
}

#[test]
fn texts_are_held_against_each_other() {
    assert!(same_text("", ""));
    assert!(same_text("earth", "earth"));
    assert!(!same_text("earth", "Earth"));
    assert!(!same_text("earth", "eart"));
    assert!(!same_text("form", "auth"));
    assert!(has_char("a/b", '/'));
    assert!(!has_char("ab", '/'));
    assert!(!has_char("", '/'));
}

#[test]
fn path_is_cut_into_segments() {
    assert_eq!(path_segments("/earth/asia"), strings(&["earth", "asia"]));
    assert_eq!(path_segments("/"), strings(&[]));
    assert_eq!(path_segments(""), strings(&[]));
    assert_eq!(path_segments("earth"), strings(&["earth"]));
    assert_eq!(path_segments("//a///b//"), strings(&["a", "b"]));
    assert_eq!(path_segments("/a%2Fb/.."), strings(&["a%2Fb", ".."]));
}

#[test]
fn pairs_are_read() {
    let pairs = parse_pairs("a=1&b=2&&c&d=&=e&a=3");
    let expected: Vec<(String, String)> = [("a", "1"), ("b", "2"), ("c", ""), ("d", ""), ("", "e"), ("a", "3")]
        .iter()
        .map(|(k, v)| (k.to_string(), v.to_string()))
        .collect();
    assert_eq!(pairs, expected);
    assert_eq!(parse_pairs(""), Vec::<(String, String)>::new());
    assert_eq!(parse_pairs("&&"), Vec::<(String, String)>::new());
}

#[test]
fn first_value_of_a_key_is_found() {
    let pairs = parse_pairs("a=1&b=2&a=3&c");
    assert_eq!(find_value(&pairs, "a"), Some(&"1".to_string()));
    assert_eq!(find_value(&pairs, "b"), Some(&"2".to_string()));
    assert_eq!(find_value(&pairs, "c"), Some(&"".to_string()));
    assert_eq!(find_value(&pairs, "d"), None);
    assert_eq!(find_value(&pairs, ""), None);
}

#[test]
fn location_is_resolved_below_the_root() {
    assert_eq!(resolve(&strings(&["a", "b"])), Some(strings(&["a", "b"])));
    assert_eq!(resolve(&strings(&[])), Some(strings(&[])));
    assert_eq!(resolve(&strings(&["a", "..", "b"])), Some(strings(&["b"])));
    assert_eq!(resolve(&strings(&["..", "..", "etc", "passwd"])), Some(strings(&["etc", "passwd"])));
    assert_eq!(resolve(&strings(&["a", ".", "", "b"])), Some(strings(&["a", "b"])));
    assert_eq!(resolve(&strings(&["a", "b", "..", ".."])), Some(strings(&[])));
    assert_eq!(resolve(&strings(&["..."])), Some(strings(&["..."])));
    assert_eq!(resolve(&strings(&[".hidden"])), Some(strings(&[".hidden"])));
}

#[test]
fn location_with_a_separator_in_a_name_is_refused() {
    assert_eq!(resolve(&strings(&["a/b"])), None);
    assert_eq!(resolve(&strings(&["a", "/etc/passwd"])), None);
    assert_eq!(resolve(&strings(&["a\\b"])), None);
    assert_eq!(resolve(&strings(&["a/b", ".."])), None);
    assert_eq!(resolve(&strings(&["..", "a/.."])), None);
}

#[test]
fn split_undoes_join() {
    let lists: [&[&str]; 5] = [&["a"], &["a", "b"], &["", ""], &["", "a", "", "b", ""], &["é", "你"]];
    for list in lists {
        let pieces = strings(list);
        assert_eq!(split_text(&join_text(&pieces, '/'), '/'), pieces);
    }
}

#[test]
fn cut_parts_make_the_whole() {
    for sample in ["", "a", "a=b", "a=b=c", "=", "==", "a=", "=b", "é=你"] {
        let (head, tail) = split_once(sample, '=');
        assert!(!head.contains('='));
        match tail {
            Some(tail) => assert_eq!(format!("{}={}", head, tail), sample),
            None => assert_eq!(head, sample),
        }
    }
}

#[test]
fn spelled_out_segments_are_read_back() {
    let lists: [&[&str]; 4] = [&[], &["a"], &["earth", "asia"], &["a", "b", "c", "d"]];
    for list in lists {
        let segments = strings(list);
        let path = format!("/{}", join_text(&segments, '/'));
        assert_eq!(path_segments(&path), segments);
    }
}

#[test]
fn resolved_names_are_plain() {
    let lists: [&[&str]; 7] = [
        &["..", "..", "etc", "passwd"],
        &["a", "..", "..", "b"],
        &[".", "a", ".", ".."],
        &["...", ".a", "a."],
        &["a", "b", "c"],
        &["..", ".", ""],
        &["a b", "c:d", "*"],
    ];
    for list in lists {
        let location = resolve(&strings(list)).unwrap();
        for name in location {
            assert!(!name.is_empty());
            assert_ne!(name, ".");
            assert_ne!(name, "..");
            assert!(!name.contains('/'));
            assert!(!name.contains('\\'));
        }
    }
}
