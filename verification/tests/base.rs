use std::path::Path;

use debtap_rs::bytes::sort;
use debtap_rs::collection::{TextMap, TextSet};
use debtap_rs::number::{decimal_text, hex_text, parse_number, signed_text, wide_decimal_text};
use debtap_rs::paths::{
    components, display, file_name, is_absolute, join_path, normalize_relative, same_path,
    starts_with_path, Component,
};
use debtap_rs::pieces::{lowered_char, split_lines, split_words, trimmed, written_lines};
use debtap_rs::text::{ascii_white_space, control, white_space};

fn characters(text: &str) -> Vec<char> {
    text.chars().collect()
}

fn strings(parts: &[&[char]]) -> Vec<String> {
    parts.iter().map(|part| part.iter().collect()).collect()
}

#[test]
fn character_classes_are_those_of_the_standard_library() {
    for code in 0..=0x0010_ffff_u32 {
        if let Some(character) = char::from_u32(code) {
            assert_eq!(white_space(character), character.is_whitespace(), "{code:x}");
            assert_eq!(control(character), character.is_control(), "{code:x}");
            assert_eq!(
                ascii_white_space(character),
                character.is_ascii_whitespace(),
                "{code:x}"
            );
            assert_eq!(
                lowered_char(character),
                character.to_ascii_lowercase(),
                "{code:x}"
            );
        }
    }
}

#[test]
fn texts_are_split_as_the_standard_library_splits_them() {
    for text in [
        "",
        "\n",
        "a",
        "a\n",
        "a\r\nb\r",
        "a\n\nb\n",
        " a  b\tc ",
        "\u{85}x\u{a0}y\u{3000}",
        "\r\n\r\n",
    ] {
        let all = characters(text);
        assert_eq!(
            strings(&split_lines(&all)),
            text.lines().collect::<Vec<_>>(),
            "{text:?}"
        );
        assert_eq!(
            strings(&split_words(&all)),
            text.split_whitespace().collect::<Vec<_>>(),
            "{text:?}"
        );
        assert_eq!(trimmed(&all).iter().collect::<String>(), text.trim());
    }
}

#[test]
fn numbers_are_read_as_the_standard_library_reads_them() {
    for text in [
        "", "+", "-", "-1", "+7", "0", "007", "18446744073709551615", "18446744073709551616",
        "99999999999999999999999", "12x", "1 2", "٣", "+-1",
    ] {
        let expected = text.parse::<u64>();
        match parse_number(&characters(text), u64::MAX) {
            Ok(number) => assert_eq!(Ok(number), expected, "{text}"),
            Err(error) => assert_eq!(
                error.describe(),
                expected.expect_err("a fault").to_string(),
                "{text}"
            ),
        }
    }
    assert!(parse_number(&characters("256"), 255).is_err());
    assert_eq!(parse_number(&characters("255"), 255).ok(), Some(255));
}

#[test]
fn numbers_are_written_as_the_standard_library_writes_them() {
    for number in [0, 7, 10, 1_234_567_890, u64::MAX] {
        assert_eq!(decimal_text(number), number.to_string());
    }
    for number in [0, -1, 42, i64::MIN, i64::MAX] {
        assert_eq!(signed_text(number), number.to_string());
    }
    assert_eq!(wide_decimal_text(u128::MAX), u128::MAX.to_string());
    assert_eq!(hex_text(0xbeef, 8), format!("{:08x}", 0xbeef));
    assert_eq!(hex_text(u128::MAX, 32), format!("{:032x}", u128::MAX));
}

#[test]
fn paths_are_read_as_the_standard_library_reads_them() {
    for text in [
        "", "/", ".", "..", "a", "./a", "a/.", "/a//b/", "a/../b", "//a", "/..", "a/b/c.d",
    ] {
        let path = Path::new(text);
        assert_eq!(is_absolute(text.as_bytes()), path.is_absolute(), "{text}");
        assert_eq!(
            file_name(text.as_bytes()).map(|name| name.to_vec()),
            path.file_name().map(|name| name.to_str().unwrap().as_bytes().to_vec()),
            "{text}"
        );
        let parts: Vec<String> = components(text.as_bytes())
            .iter()
            .map(|part| match part {
                Component::Root => "/".to_string(),
                Component::Current => ".".to_string(),
                Component::Parent => "..".to_string(),
                Component::Name(name) => String::from_utf8(name.to_vec()).unwrap(),
            })
            .collect();
        let expected: Vec<String> = path
            .components()
            .map(|part| part.as_os_str().to_str().unwrap().to_string())
            .collect();
        assert_eq!(parts, expected, "{text}");
        for other in ["x", "/x", "a", ""] {
            assert_eq!(
                String::from_utf8(join_path(text.as_bytes(), other.as_bytes())).unwrap(),
                path.join(other).to_str().unwrap(),
                "{text} {other}"
            );
            assert_eq!(
                starts_with_path(text.as_bytes(), other.as_bytes()),
                path.starts_with(other),
                "{text} {other}"
            );
            assert_eq!(
                same_path(text.as_bytes(), other.as_bytes()),
                path == Path::new(other),
                "{text} {other}"
            );
        }
    }
}

#[test]
fn paths_need_not_be_text() {
    assert_eq!(display(&[0x2f, 0x61, 0xff]), "/a\u{fffd}");
    assert_eq!(display("/grün".as_bytes()), "/grün");
}

#[test]
fn normal_paths_stay_below_their_start() {
    assert_eq!(normalize_relative(b"a/./b/../c").expect("path"), b"a/c");
    assert!(normalize_relative(b"a/../../b").is_err());
}

#[test]
fn byte_strings_are_sorted() {
    let list = vec![b"b".to_vec(), b"a/z".to_vec(), vec![0xff], b"a".to_vec(), b"".to_vec()];
    let mut expected = list.clone();
    expected.sort();
    assert_eq!(sort(list), expected);
}

#[test]
fn maps_and_sets_hold_the_last_value() {
    let mut map: TextMap<u8> = TextMap::new();
    assert!(map.is_empty());
    map.insert("b".to_string(), 1);
    map.insert("a".to_string(), 2);
    map.insert("b".to_string(), 3);
    assert_eq!(map.len(), 2);
    assert_eq!(map.get("b"), Some(&3));
    assert_eq!(map.get("c"), None);
    let mut set = TextSet::new();
    set.insert("y".to_string());
    set.insert("x".to_string());
    set.insert("y".to_string());
    assert!(set.contains("x"));
    assert!(!set.contains("z"));
    assert_eq!(set.list(), ["x", "y"]);
}

#[test]
fn copies_of_maps_and_sets_are_equal() {
    let mut map: TextMap<String> = TextMap::new();
    map.insert("b".to_string(), "two".to_string());
    map.insert("a".to_string(), "one".to_string());
    let copy = map.clone();
    assert_eq!(copy, map);
    map.insert("a".to_string(), "three".to_string());
    assert_eq!(copy.get("a").map(String::as_str), Some("one"));
    assert_eq!(copy.get("b").map(String::as_str), Some("two"));

    let mut set = TextSet::new();
    set.insert("x".to_string());
    assert_eq!(set.clone().list(), ["x"]);
}

#[test]
fn written_lines_give_back_the_lines() {
    let list = vec!["one".to_string(), String::new(), "two = 2".to_string()];
    let text = written_lines(&list);
    assert_eq!(text, "one\n\ntwo = 2\n");
    assert_eq!(strings(&split_lines(&characters(&text))), list);
}
