use std::path::{Component, Path};
use indexmap::IndexMap;
use stepci::digest::{hash_bytes, hex};
use stepci::order::{comes_before, sort_texts};
use stepci::paths::{absolute, components, from_components, join_path, parent};
use stepci::relpath::{path_before, path_eq, path_take};
use stepci::scan::{
    blank, chomp, contains, find, join, lines, replace, rsplit_once, split, split_once, trim,
    words,
};
use stepci::strmap::{put_entries, put_pairs, to_pairs};
use stepci::text::{
    chars_of, concat2, concat3, concat4, concat5, ends_with, has_text, is_ascii_alphabetic,
    is_ascii_digit, is_whitespace, lower_char, starts_with, str_eq, strip_prefix, strip_suffix,
    to_lower, to_upper, upper_char,
};

const SAMPLES: [&str; 14] = [
    "",
    " ",
    "a",
    "a,b",
    "a,,b,",
    ",",
    "line\nline\r\nlast",
    "\n",
    "\r\n\n x \n",
    "  padded\t ",
    "ünï cödé \u{3000}x\u{a0}",
    "aaa",
    "ab ab  ab",
    "\u{85}nel\u{2028}",
];

#[test]
fn characters_are_classed_as_std_does() {
    for n in 0..=0x10ffffu32 {
        if let Some(c) = char::from_u32(n) {
            assert_eq!(is_whitespace(c), c.is_whitespace(), "{n:x}");
            assert_eq!(is_ascii_digit(c), c.is_ascii_digit(), "{n:x}");
            assert_eq!(is_ascii_alphabetic(c), c.is_ascii_alphabetic(), "{n:x}");
            assert_eq!(lower_char(c), c.to_ascii_lowercase(), "{n:x}");
            assert_eq!(upper_char(c), c.to_ascii_uppercase(), "{n:x}");
        }
    }
}

#[test]
fn texts_are_split_as_std_does() {
    for s in SAMPLES {
        assert_eq!(trim(s), s.trim(), "{s:?}");
        assert_eq!(blank(s), s.trim().is_empty(), "{s:?}");
        assert_eq!(chomp(s), s.trim_end_matches(['\n', '\r']), "{s:?}");
        assert_eq!(lines(s), s.lines().map(String::from).collect::<Vec<_>>(), "{s:?}");
        assert_eq!(
            words(s),
            s.split_whitespace().map(String::from).collect::<Vec<_>>(),
            "{s:?}"
        );
        for c in [',', ' ', 'a', '\n'] {
            assert_eq!(
                split(s, c),
                s.split(c).map(String::from).collect::<Vec<_>>(),
                "{s:?} {c:?}"
            );
            let owned = |p: (&str, &str)| (p.0.to_string(), p.1.to_string());
            assert_eq!(split_once(s, c), s.split_once(c).map(owned), "{s:?} {c:?}");
            assert_eq!(rsplit_once(s, c), s.rsplit_once(c).map(owned), "{s:?} {c:?}");
        }
        assert_eq!(replace(s, "", "<>"), s.replace("", "<>"), "{s:?}");
        for p in ["a", "aa", "ab", "\n", "ö", " "] {
            assert_eq!(replace(s, p, "<>"), s.replace(p, "<>"), "{s:?} {p:?}");
            assert_eq!(contains(s, p), s.contains(p), "{s:?} {p:?}");
            assert_eq!(find(s, p).is_some(), s.find(p).is_some(), "{s:?} {p:?}");
            assert_eq!(starts_with(s, p), s.starts_with(p), "{s:?} {p:?}");
            assert_eq!(ends_with(s, p), s.ends_with(p), "{s:?} {p:?}");
            assert_eq!(
                strip_prefix(s, p).as_deref(),
                s.strip_prefix(p),
                "{s:?} {p:?}"
            );
            assert_eq!(
                strip_suffix(s, p).as_deref(),
                s.strip_suffix(p),
                "{s:?} {p:?}"
            );
        }
        assert_eq!(to_lower(s), s.to_ascii_lowercase());
        assert_eq!(to_upper(s), s.to_ascii_uppercase());
        assert_eq!(chars_of(s), s.chars().collect::<Vec<_>>());
        for t in SAMPLES {
            assert_eq!(str_eq(s, t), s == t);
            assert_eq!(comes_before(s, t), s < t, "{s:?} {t:?}");
        }
    }
}

#[test]
fn texts_are_put_together() {
    assert_eq!(concat2("a", "b"), "ab");
    assert_eq!(concat3("a", "", "c"), "ac");
    assert_eq!(concat4("a", "b", "c", "d"), "abcd");
    assert_eq!(concat5("a", "b", "c", "d", "ë"), "abcdë");
    let v = vec!["x".to_string(), "y".to_string(), "".to_string()];
    assert_eq!(join(&v, ", "), "x, y, ");
    assert_eq!(join(&vec![], ", "), "");
    assert!(has_text(&v, "y"));
    assert!(!has_text(&v, "z"));
}

#[test]
fn texts_are_sorted_and_deduplicated() {
    let v: Vec<String> = ["b", "a", "ab", "b", "", "é", "z"].iter().map(|s| s.to_string()).collect();
    let want: Vec<String> = v
        .iter()
        .cloned()
        .collect::<std::collections::BTreeSet<_>>()
        .into_iter()
        .collect();
    assert_eq!(sort_texts(&v), want);
}

#[test]
fn paths_are_joined_and_taken_apart() {
    for (base, p) in [
        ("/ws", "a"),
        ("/ws/", "a/b"),
        ("/ws", "/abs"),
        ("", "a"),
        ("/ws", "./x"),
        ("/ws", "../x"),
        ("rel", ""),
    ] {
        assert_eq!(
            Path::new(&join_path(base, p)),
            Path::new(base).join(p),
            "{base:?} {p:?}"
        );
        assert_eq!(absolute(p), Path::new(p).is_absolute());
    }
    for p in ["/ws/dist/app.js", "a/b", "a", "./a/./b", "/", "", "a//b/", "../x"] {
        let want: Vec<String> = Path::new(p)
            .components()
            .map(|c| match c {
                Component::RootDir => "/".to_string(),
                other => other.as_os_str().to_str().unwrap().to_string(),
            })
            .collect();
        assert_eq!(components(p), want, "{p:?}");
        let up: Vec<String> = match Path::new(p).parent() {
            Some(q) => q
                .components()
                .map(|c| c.as_os_str().to_str().unwrap().to_string())
                .collect(),
            None => vec![],
        };
        assert_eq!(parent(p), up, "{p:?}");
        assert_eq!(Path::new(&from_components(&components(p))), Path::new(p), "{p:?}");
    }
}

#[test]
fn relative_paths_are_ordered_by_their_parts() {
    let p = |s: &str| components(s);
    assert!(path_before(&p("a/z"), &p("a.b")));
    assert!(path_before(&p("a"), &p("a/b")));
    assert!(!path_before(&p("a"), &p("a")));
    assert!(path_eq(&p("a/b"), &p("a/b")));
    assert_eq!(path_take(&p("a/b/c"), 2), p("a/b"));
}

#[test]
fn digests_are_sha256_in_hexadecimal() {
    assert_eq!(
        hash_bytes(&vec![]),
        "e3b0c44298fc1c149afbf4c8996fb92427ae41e4649b934ca495991b7852b855"
    );
    assert_eq!(
        hash_bytes(&b"abc".to_vec()),
        "ba7816bf8f01cfea414140de5dae2223b00361a396177a9cb410ff61f20015ad"
    );
    assert_eq!(hex(&vec![0, 15, 16, 255]), "000f10ff");
}

#[test]
fn maps_keep_the_place_of_a_key() {
    let mut m: IndexMap<String, String> = IndexMap::new();
    let pair = |k: &str, v: &str| (k.to_string(), v.to_string());
    put_pairs(&mut m, &vec![pair("a", "1"), pair("b", "2"), pair("a", "3")]);
    assert_eq!(to_pairs(&m), vec![pair("a", "3"), pair("b", "2")]);
    let mut more: IndexMap<String, String> = IndexMap::new();
    put_pairs(&mut more, &vec![pair("c", "4"), pair("b", "5")]);
    put_entries(&mut m, &more);
    assert_eq!(to_pairs(&m), vec![pair("a", "3"), pair("b", "5"), pair("c", "4")]);
}
