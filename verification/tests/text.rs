//! Small string operations, orderings and digests.
use mailctl::digest::digest;
use mailctl::encoding::{hex, json_list_size, json_text_size};
use mailctl::order::{comes_before, descending, same_list, sorted_set};
use mailctl::path::{begins_with, components_of, same_path};
use mailctl::text::{
    are_distinct, byte_len, decimal_text, first_of, holds_char, is_listed, last_of, lower_text,
    same_text_ignoring_case, text_of, trim,
};

fn strings(list: &[&str]) -> Vec<String> {
    list.iter().map(|text| text.to_string()).collect()
}

#[test]
fn text_is_measured_in_bytes_and_searched_in_characters() {
    assert_eq!(byte_len("h\u{e9}"), 3);
    assert!(holds_char("h\u{e9}", '\u{e9}'));
    assert!(!holds_char("he", '\u{e9}'));
    let chars: Vec<char> = "a.b.c".chars().collect();
    assert_eq!(first_of(&chars, '.'), Some(1));
    assert_eq!(last_of(&chars, '.'), Some(3));
    assert_eq!(first_of(&chars, '@'), None);
    assert_eq!(last_of(&chars, '@'), None);
}

#[test]
fn lists_know_their_members_and_their_repetitions() {
    let list = strings(&["a", "b"]);
    assert!(is_listed(&list, "b"));
    assert!(!is_listed(&list, "c"));
    assert!(are_distinct(&list));
    assert!(!are_distinct(&strings(&["a", "b", "a"])));
}

#[test]
fn bytes_spell_text_only_where_they_are_valid() {
    assert_eq!(text_of("caf\u{e9}".as_bytes()).as_deref(), Some("caf\u{e9}"));
    assert_eq!(text_of(&[0xff]), None);
}

#[test]
fn trimming_removes_white_space_at_both_ends() {
    assert_eq!(trim("\u{3000} a b\t\r\n"), "a b");
    assert_eq!(trim(" \n"), "");
}

#[test]
fn case_is_ignored_for_ascii_letters_only() {
    assert_eq!(lower_text("WaL\u{c9}"), "wal\u{c9}");
    assert!(same_text_ignoring_case("WAL", "wal"));
    assert!(!same_text_ignoring_case("\u{c9}", "\u{e9}"));
}

#[test]
fn decimal_text_reads_back() {
    for value in [0u32, 9, 10, 4096, u32::MAX] {
        assert_eq!(decimal_text(value), value.to_string());
        assert_eq!(decimal_text(value).parse::<u32>().unwrap(), value);
    }
}

#[test]
fn texts_have_one_order() {
    assert!(comes_before("a", "ab"));
    assert!(comes_before("Z", "a"));
    assert!(!comes_before("a", "a"));
    assert!(!comes_before("b", "a"));
    assert!(comes_before("z", "\u{e9}"));
}

#[test]
fn sorted_sets_drop_repetitions() {
    let sorted = sorted_set(&strings(&["b", "a", "b", "C"]));
    assert_eq!(sorted, strings(&["C", "a", "b"]));
    assert!(same_list(&sorted, &strings(&["C", "a", "b"])));
    assert!(!same_list(&sorted, &strings(&["C", "a"])));
}

#[test]
fn numbers_are_sorted_downwards_and_repetitions_are_refused() {
    assert_eq!(descending(&vec![3, 9, 1]), Some(vec![9, 3, 1]));
    assert_eq!(descending(&vec![3, 9, 3]), None);
    assert_eq!(descending(&Vec::new()), Some(Vec::new()));
}

#[test]
fn digests_are_sha256() {
    assert_eq!(
        hex(&digest(b"abc")),
        "ba7816bf8f01cfea414140de5dae2223b00361a396177a9cb410ff61f20015ad"
    );
    assert_eq!(
        hex(&digest(b"")),
        "e3b0c44298fc1c149afbf4c8996fb92427ae41e4649b934ca495991b7852b855"
    );
}

#[test]
fn json_sizes_agree_with_a_serializer() {
    for text in ["", "plain", "quote\" and \\", "caf\u{e9}", "line\nbreak\u{1}\u{7f}"] {
        assert_eq!(json_text_size(text), serde_json::to_string(text).unwrap().len(), "{text:?}");
    }
    let list = strings(&["one", "two\n", ""]);
    assert_eq!(json_list_size(&list), serde_json::to_string(&list).unwrap().len());
    assert_eq!(json_list_size(&Vec::new()), 2);
}

#[test]
fn paths_are_compared_by_their_steps() {
    assert_eq!(components_of("/a//b/./c/"), strings(&["a", "b", "c"]));
    assert_eq!(components_of("./../a"), strings(&["..", "a"]));
    assert_eq!(components_of(""), Vec::<String>::new());
    let paths = ["", ".", "/", "a", "./a", "/a", "a/b", "/a/b", "a/../b", "..", "./."];
    for one in paths {
        assert!(same_path(one, &format!("{one}{}", if one.is_empty() { "" } else { "/" })));
        for other in paths {
            let (a, b) = (std::path::Path::new(one), std::path::Path::new(other));
            assert_eq!(same_path(one, other), a == b, "{one:?} {other:?}");
            assert_eq!(begins_with(one, other), a.starts_with(b), "{one:?} {other:?}");
        }
    }
}
