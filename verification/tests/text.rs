use gitjournal::document::{Date, Oid};
use gitjournal::format::{format_date, format_short_hex, push_decimal, repeat_char};
use gitjournal::order::{drop_repeats, find_insert_pos, sort_strings, sort_unique};
use gitjournal::text::{
    blocks, chars_less, contains, from_chars, has_at, lines, same_str, split, str_less,
    string_of, to_chars, trim,
};

fn chars(s: &str) -> Vec<char> {
    s.chars().collect()
}

fn strings(v: &[&str]) -> Vec<String> {
    v.iter().map(|s| s.to_string()).collect()
}

fn pieces(v: Vec<Vec<char>>) -> Vec<String> {
    v.into_iter().map(|p| p.into_iter().collect()).collect()
}

#[test]
fn strings_and_characters() {
    assert_eq!(to_chars("a\u{e9}\u{1f496}"), vec!['a', '\u{e9}', '\u{1f496}']);
    assert_eq!(from_chars(&chars("a\u{e9}\u{1f496}")), "a\u{e9}\u{1f496}");
    assert_eq!(string_of(&chars("hello"), 1, 3), "el");
    assert!(same_str("abc", "abc"));
    assert!(!same_str("abc", "abd"));
}

#[test]
fn trimming_takes_all_white_space() {
    assert_eq!(trim(&chars(" \t\n a b \r\n")), chars("a b"));
    assert_eq!(trim(&chars("\u{a0}\u{2003}x\u{3000}")), chars("x"));
    assert_eq!(trim(&chars(" \n\t ")), chars(""));
    assert_eq!(trim(&chars("")), chars(""));
    assert_eq!(trim(&chars("x")), chars("x"));
}

#[test]
fn blocks_are_parted_by_empty_lines() {
    assert_eq!(pieces(blocks(&chars("a\n\nb\nc\n\nd"))), strings(&["a", "b\nc", "d"]));
    assert_eq!(pieces(blocks(&chars("a\n\n\nb"))), strings(&["a", "\nb"]));
    assert_eq!(pieces(blocks(&chars("a\n\n\n\nb"))), strings(&["a", "", "b"]));
    assert_eq!(pieces(blocks(&chars(""))), strings(&[""]));
    assert_eq!(pieces(blocks(&chars("a\n\n"))), strings(&["a", ""]));
    assert_eq!(pieces(blocks(&chars("a\n"))), strings(&["a\n"]));
}

#[test]
fn lines_end_with_line_feeds() {
    assert_eq!(pieces(lines(&chars("a\nb"))), strings(&["a", "b"]));
    assert_eq!(pieces(lines(&chars("a\nb\n"))), strings(&["a", "b"]));
    assert_eq!(pieces(lines(&chars("a\r\nb\r"))), strings(&["a", "b\r"]));
    assert_eq!(pieces(lines(&chars("\n\na"))), strings(&["", "", "a"]));
    assert_eq!(pieces(lines(&chars(""))), strings(&[]));
    for text in ["a\nb", "a\nb\n", "a\r\nb\r", "\n\na", "", "\r\n", "x\r\r\n"] {
        let expected: Vec<String> = text.lines().map(|l| l.to_owned()).collect();
        assert_eq!(pieces(lines(&chars(text))), expected);
    }
}

#[test]
fn splitting_keeps_empty_pieces() {
    assert_eq!(pieces(split(&chars("a,b,,c"), ',')), strings(&["a", "b", "", "c"]));
    assert_eq!(pieces(split(&chars(""), ',')), strings(&[""]));
    assert_eq!(pieces(split(&chars(","), ',')), strings(&["", ""]));
}

#[test]
fn searching() {
    assert!(contains(&chars("v1.0-rc1"), &chars("rc")));
    assert!(!contains(&chars("v1.0"), &chars("rc")));
    assert!(contains(&chars("v1.0"), &chars("")));
    assert!(contains(&chars(""), &chars("")));
    assert!(!contains(&chars("r"), &chars("rc")));
    assert!(has_at(&chars("abc"), 1, &chars("bc")));
    assert!(!has_at(&chars("abc"), 2, &chars("bc")));
    assert!(has_at(&chars("abc"), 3, &chars("")));
    assert!(!has_at(&chars("abc"), 4, &chars("")));
}

#[test]
fn sorting_strings() {
    let v = strings(&["b", "a", "c", "a", "B", "\u{e9}", "ab", ""]);
    let mut expected = v.clone();
    expected.sort();
    assert_eq!(sort_strings(&v), expected);
    expected.dedup();
    assert_eq!(sort_unique(&v), expected);
    assert_eq!(
        sort_unique(&v),
        strings(&["", "B", "a", "ab", "b", "c", "\u{e9}"])
    );
    assert_eq!(drop_repeats(&strings(&["a", "a", "b", "a"])), strings(&["a", "b", "a"]));
    assert_eq!(find_insert_pos(&strings(&["a", "c", "c", "e"]), "c"), 3);
    assert_eq!(find_insert_pos(&strings(&["a", "c", "c", "e"]), "b"), 1);
    assert_eq!(find_insert_pos(&strings(&["a", "c"]), "z"), 2);
    assert_eq!(find_insert_pos(&strings(&[]), "z"), 0);
}

#[test]
fn numbers_and_dates() {
    let mut out = vec![];
    push_decimal(&mut out, 0);
    push_decimal(&mut out, 1907);
    push_decimal(&mut out, u64::MAX);
    assert_eq!(out, chars("0190718446744073709551615"));
    assert_eq!(format_date(Date { year: 2016, month: 3, day: 7 }), chars("2016-03-07"));
    assert_eq!(format_date(Date { year: 2016, month: 12, day: 31 }), chars("2016-12-31"));
    assert_eq!(format_date(Date { year: -44, month: 3, day: 15 }), chars("-44-03-15"));
    assert_eq!(format_date(Date { year: i32::MIN, month: 1, day: 1 }), chars("-2147483648-01-01"));
    assert_eq!(repeat_char('#', 3), chars("###"));
    assert_eq!(repeat_char('#', 0), chars(""));
}

#[test]
fn short_commit_identifier() {
    let mut bytes = [0u8; 20];
    bytes[0] = 0xab;
    bytes[1] = 0x01;
    bytes[2] = 0xf9;
    bytes[3] = 0x7c;
    assert_eq!(format_short_hex(&Oid { bytes }), chars("ab01f97"));
}

#[test]
fn day_of_a_timestamp() {
    assert_eq!(
        Date::from_timestamp(1431648000),
        Some(Date { year: 2015, month: 5, day: 15 })
    );
    assert_eq!(
        Date::from_timestamp(0),
        Some(Date { year: 1970, month: 1, day: 1 })
    );
    assert_eq!(
        Date::from_timestamp(-1),
        Some(Date { year: 1969, month: 12, day: 31 })
    );
    assert_eq!(Date::from_timestamp(i64::MAX), None);
    assert_eq!(
        Date::from_parts(Some((2015, 5, 15))),
        Some(Date { year: 2015, month: 5, day: 15 })
    );
    assert_eq!(Date::from_parts(None), None);
}

#[test]
fn order_of_strings() {
    let words = [
        "", "a", "A", "ab", "abc", "b", "B", "\u{e9}", "\u{e9}a", "z\u{1f496}", "\u{1f496}",
        "\u{ffff}", "\u{10000}", "a\u{0}", " ", "Added", "Changed",
    ];
    for a in words {
        for b in words {
            assert_eq!(str_less(a, b), a < b);
            assert_eq!(chars_less(&chars(a), &chars(b)), a < b);
        }
    }
    assert!(str_less("Added", "Changed"));
    assert!(!str_less("Changed", "Added"));
    assert!(!str_less("same", "same"));
    assert!(str_less("sam", "same"));
}
