use genesis::document;
use genesis::json;
use genesis::json::Json;
use genesis::order;
use genesis::paths;
use genesis::table::Table;
use genesis::text;

#[test]
fn documents_are_read_and_written() {
    let j = json::parse(r#" {"b":[1,-2,2.5,null,true,"x"],"a":{}} "#).unwrap();
    assert_eq!(j.to_text(), r#"{"a":{},"b":[1,-2,2.5,null,true,"x"]}"#);
    let items = j.get_array("b").unwrap();
    assert_eq!(items[0], Json::UInt(1));
    assert_eq!(items[1], Json::NegInt(-2));
    assert_eq!(items[5], Json::Text("x".into()));
    assert!(matches!(items[2], Json::Fraction(_)));
    assert_eq!(j.copy().to_text(), j.to_text());
    let err = json::parse("{").unwrap_err();
    assert!(err.contains("EOF"), "{err}");
    assert_eq!(json::parse(r#"{"a":1,"a":2}"#).unwrap().to_text(), r#"{"a":2}"#);
}

#[test]
fn documents_can_be_built() {
    let j = Json::object()
        .with("n", Json::whole(-7))
        .with("n", Json::whole(7))
        .with_some("s", Some(Json::text("ü\"")))
        .with_some("t", None)
        .with("l", Json::strings(&vec!["a".to_string()]));
    assert_eq!(j.to_text(), r#"{"l":["a"],"n":7,"s":"ü\""}"#);
    assert_eq!(j.get_u64("n"), Some(7));
    assert_eq!(j.get_i64("n"), Some(7));
    assert_eq!(j.get_bool("n"), None);
    assert_eq!(j.get_str("s").as_deref(), Some("ü\""));
    assert_eq!(j.to_pretty(), "{\n  \"l\": [\n    \"a\"\n  ],\n  \"n\": 7,\n  \"s\": \"ü\\\"\"\n}");
}

#[test]
fn tables_keep_their_keys_in_order() {
    let mut t: Table<u64> = Table::new();
    assert_eq!(t.insert("b".into(), 1), None);
    assert_eq!(t.insert("a".into(), 2), None);
    assert_eq!(t.insert("b".into(), 3), Some(1));
    assert_eq!(t.keys(), vec!["a", "b"]);
    assert_eq!(t.len(), 2);
    assert_eq!(t.get("b"), Some(&3));
    assert_eq!(t.remove("a"), Some(2));
    assert!(!t.contains_key("a"));
}

#[test]
fn texts_are_cut_like_std_cuts_them() {
    for s in ["", "a", "a\n", "a\r\nb", "\n\n", "a\nb\r", "  x \u{3000}", "a,b,,c", "ä€😀"] {
        let lines: Vec<&str> = s.lines().collect();
        assert_eq!(text::lines(s), lines, "{s:?}");
        assert_eq!(text::trim(s), s.trim(), "{s:?}");
        assert_eq!(text::trim_end(s), s.trim_end(), "{s:?}");
        assert_eq!(text::trim_start(s), s.trim_start(), "{s:?}");
        assert_eq!(text::split(s, ','), s.split(',').collect::<Vec<_>>(), "{s:?}");
        assert_eq!(text::bytes_in(s), s.len());
        assert_eq!(text::replace(s, "a", "bb"), s.replace("a", "bb"));
        for max in 0..12 {
            let mut cut = max.min(s.len());
            while !s.is_char_boundary(cut) {
                cut -= 1;
            }
            assert_eq!(text::head(s, max), &s[..cut]);
            let mut from = s.len() - max.min(s.len());
            while !s.is_char_boundary(from) {
                from += 1;
            }
            assert_eq!(text::tail(s, max), &s[from..]);
        }
    }
}

#[test]
fn numbers_are_written_and_read() {
    for n in [0, 7, 10, 99, 12345, u64::MAX] {
        assert_eq!(text::number(n), n.to_string());
        assert_eq!(text::parse_unsigned(&n.to_string(), u64::MAX), Some(n));
    }
    assert_eq!(text::signed_number(i64::MIN), i64::MIN.to_string());
    assert_eq!(text::pad_number(7, 4), "0007");
    assert_eq!(text::pad_number(12345, 4), "12345");
    for bad in ["", "+", "-1", "1 ", "18446744073709551616", "x"] {
        assert_eq!(text::parse_unsigned(bad, u64::MAX), bad.parse::<u64>().ok(), "{bad:?}");
    }
    assert_eq!(text::parse_unsigned("+5", u64::MAX), "+5".parse::<u64>().ok());
}

#[test]
fn sorting_is_by_code_point() {
    let mut words: Vec<String> =
        ["b", "", "a", "ab", "ä", "B", "😀", "\u{ffff}"].iter().map(|s| s.to_string()).collect();
    let mut expected = words.clone();
    expected.sort();
    order::sort(&mut words);
    assert_eq!(words, expected);
}

#[test]
fn case_is_ignored_for_ascii_letters() {
    assert!(text::contains_ignore_case("xPwShy", "pwsh"));
    assert!(!text::contains_ignore_case("pws", "pwsh"));
    assert!(text::contains_ignore_case("x", ""));
    assert!(text::eq_ignore_case("Cargo.TOML", "cargo.toml"));
    assert!(!text::eq_ignore_case("Ä", "ä"));
}

#[test]
fn paths_are_taken_apart() {
    assert_eq!(paths::join("/a/b", "c"), "/a/b/c");
    assert_eq!(paths::join("/a/b", "/c"), "/c");
    assert_eq!(paths::normalise("/a/./b/../c"), "/a/c");
    assert_eq!(paths::file_name("/a/b.txt").as_deref(), Some("b.txt"));
    assert_eq!(paths::parent("/a/b").as_deref(), Some("/a"));
    assert_eq!(paths::with_file_name("/a/b", "c"), "/a/c");
    assert_eq!(paths::stem_of("a.b.c"), "a.b");
    assert_eq!(paths::stem_of(".hidden"), ".hidden");
    assert!(paths::starts_with("/a/b/c", "/a/b"));
    assert!(!paths::starts_with("/a/bc", "/a/b"));
    assert!(paths::is_absolute("/a"));
    assert!(!paths::is_absolute("a"));
    assert_eq!(paths::file_name("/a/C:").as_deref(), Some("C:"));
    assert_eq!(paths::join("/a", "C:/b"), "/a/C:/b");
    assert_eq!(paths::file_name("a\\b").as_deref(), Some("a\\b"));
}

#[test]
fn paths_of_the_host_come_back() {
    assert_eq!(paths::from_host(true, "C:\\work\\a"), "/C:/work/a");
    assert_eq!(paths::to_host(true, "/C:/work/a"), "C:/work/a");
    assert_eq!(paths::from_host(true, "src\\lib.rs"), "src/lib.rs");
    assert_eq!(paths::to_host(true, "src/lib.rs"), "src/lib.rs");
    // Where there are no drives, a path is what it is.
    assert_eq!(paths::from_host(false, "C:\\x"), "C:\\x");
    assert_eq!(paths::to_host(false, "/C:/x"), "/C:/x");
    assert!(paths::starts_with(
        &paths::from_host(true, "C:\\work\\a"),
        &paths::from_host(true, "C:/work")
    ));
    assert_eq!(paths::root_drive("c:/x"), "/c:/x");
    assert_eq!(paths::root_drive("cc:/x"), "cc:/x");
}

#[test]
fn numbers_are_read_however_they_are_held() {
    let doc = Json::object()
        .with("a", Json::NegInt(5))
        .with("b", Json::Fraction(serde_json::Number::from(7u64)))
        .with("c", Json::Fraction(serde_json::Number::from(-7i64)))
        .with("d", Json::UInt(u64::MAX));
    assert_eq!(doc.get_u64("a"), Some(5));
    assert_eq!(doc.get_i64("a"), Some(5));
    assert_eq!(doc.get_u64("b"), Some(7));
    assert_eq!(doc.get_u64("c"), None);
    assert_eq!(doc.get_i64("c"), Some(-7));
    assert_eq!(doc.get_i64("d"), None);
    assert_eq!(doc.to_text(), r#"{"a":5,"b":7,"c":-7,"d":18446744073709551615}"#);
}

#[test]
fn tables_are_written_in_the_order_of_their_names() {
    let table = document::parse("b = 1\na = \"x\"\n[c]\nz = true\ny = 2").unwrap();
    assert_eq!(
        document::to_json(Some(&table)),
        r#"{"a":"x","b":1,"c":{"y":2,"z":true}}"#
    );
}
