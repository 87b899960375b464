use kafkamitter::order::{sort_by_rank, stable_order, text_precedes};
use kafkamitter::path::{extension_of, join_path};
use kafkamitter::kafka::groups::CommittedOffset;
use kafkamitter::text::{
    decimal_text, hex_text, join_all, lines_of, parse_i32, parse_i64, parse_u64, parse_usize, same_ignoring_case,
    same_text, string_of, trimmed,
};
use kafkamitter::text_map::TextMap;
use kafkamitter::wire::Reader;

#[test]
fn numbers_are_written() {
    assert_eq!(decimal_text(0), "0");
    assert_eq!(decimal_text(-1205), "-1205");
    assert_eq!(decimal_text(i64::MIN as i128), i64::MIN.to_string());
    assert_eq!(hex_text(0xdead), "dead");
    assert_eq!(hex_text(u128::MAX), format!("{:x}", u128::MAX));
}

#[test]
fn numbers_are_read_as_std_reads_them() {
    for text in ["", "-", "+", "0", "-0", "+7", "007", "12x", " 1", "9223372036854775807", "9223372036854775808",
        "-9223372036854775808", "-9223372036854775809", "18446744073709551615", "18446744073709551616", "\u{663}"]
    {
        assert_eq!(parse_i64(text), text.parse::<i64>().ok(), "{text}");
        assert_eq!(parse_i32(text), text.parse::<i32>().ok(), "{text}");
        assert_eq!(parse_u64(text), text.parse::<u64>().ok(), "{text}");
        assert_eq!(parse_usize(text), text.parse::<usize>().ok(), "{text}");
    }
}

#[test]
fn written_numbers_are_read_back() {
    for n in [0i64, 1, -1, 42, i64::MAX, i64::MIN] {
        assert_eq!(parse_i64(&decimal_text(n as i128)), Some(n));
    }
}

#[test]
fn white_space_is_trimmed_as_std_trims_it() {
    for text in ["", " ", "a", " a b ", "\u{2003}x\u{3000}", "\tq\r\n", "\u{200b}y"] {
        assert_eq!(trimmed(text), text.trim(), "{text:?}");
    }
}

#[test]
fn lines_are_split_as_std_splits_them() {
    for text in ["", "\n", "a", "a\n", "a\r\nb", "a\n\nb\n", "a\r", "\r\n\r"] {
        let chars: Vec<char> = text.chars().collect();
        let lines: Vec<String> = lines_of(&chars).iter().map(|l| string_of(l)).collect();
        let expected: Vec<String> = text.lines().map(String::from).collect();
        assert_eq!(lines, expected, "{text:?}");
    }
}

#[test]
fn texts_are_compared() {
    assert!(same_text("a\u{e9}", "a\u{e9}"));
    assert!(!same_text("a", "ab"));
    assert!(same_ignoring_case("JsOn", "json"));
    assert!(!same_ignoring_case("json5", "json"));
    assert_eq!(join_all(&vec!["a".to_string(), "b".to_string()], ", "), "a, b");
    assert_eq!(join_all(&Vec::new(), ", "), "");
}

fn chars(text: &str) -> Vec<char> {
    text.chars().collect()
}

#[test]
fn texts_are_ordered_by_their_characters() {
    let words = ["", "a", "aa", "b", "B", "z\u{e9}", "\u{10000}", "\u{ffff}"];
    for x in words {
        for y in words {
            assert_eq!(text_precedes(&chars(x), &chars(y)), x < y, "{x} {y}");
        }
    }
}

#[test]
fn sorting_is_stable() {
    let commit = |partition: i32, at: i64| CommittedOffset { partition, committed: Some(at) };
    let items = vec![commit(2, 1), commit(1, 2), commit(2, 3), commit(1, 4), commit(0, 5)];
    assert_eq!(stable_order(&items), vec![4, 1, 3, 0, 2]);
    let sorted = sort_by_rank(items);
    assert_eq!(sorted.iter().map(|c| c.committed.unwrap()).collect::<Vec<i64>>(), [5, 2, 4, 1, 3]);
}

#[test]
fn paths_are_joined_and_taken_apart_as_std_does() {
    for (base, name) in [("/a", "b"), ("/a/", "b"), ("", "b"), ("a/b", "c.d")] {
        assert_eq!(join_path(base, name), std::path::Path::new(base).join(name).to_str().unwrap());
    }
    for path in ["a.txt", "/x/y.tar.gz", ".hidden", "a.", "noext", "/a.b/c", "x/..", "a.b/.", "", "/", "a/b.c/"] {
        let expected = std::path::Path::new(path).extension().map(|e| e.to_str().unwrap().to_string());
        assert_eq!(extension_of(path).map(|e| string_of(&e)), expected, "{path}");
    }
}

#[test]
fn a_map_holds_one_value_for_each_key() {
    let mut map: TextMap<i32> = TextMap::new();
    map.insert("b".into(), 1);
    map.insert("a".into(), 2);
    map.insert("b".into(), 3);
    assert_eq!(map.len(), 2);
    assert_eq!(map.get("b"), Some(&3));
    assert_eq!(map.get("c"), None);
    assert!(map.contains_key("a"));
    assert_eq!(map.remove("a"), Some(2));
    assert_eq!(map.remove("a"), None);
    assert_eq!(map.len(), 1);
}

#[test]
fn bytes_are_read_big_end_first() {
    let bytes = [0x01u8, 0x02, 0xff, 0xfe, 0x00, 0x00, 0x00, 0x2a, 0xff, 0xff, 0xff, 0xff, 0x07];
    let mut reader = Reader { bytes: &bytes, pos: 0 };
    assert_eq!(reader.u16(), Some(0x0102));
    assert_eq!(reader.i16(), Some(-2));
    assert_eq!(reader.u32(), Some(42));
    assert_eq!(reader.i32(), Some(-1));
    assert_eq!(reader.take(2), None);
    assert_eq!(reader.take(1), Some(&bytes[12..]));
    assert_eq!(reader.u16(), None);
}
