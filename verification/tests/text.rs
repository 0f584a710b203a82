use kbcut::json::{read_elements, read_members, value_of};
use kbcut::replacements::{rank, Rank};
use kbcut::text::{
    find, from_chars, has_word, is_control, is_whitespace, lines, parse_number, replace_all, split,
    split_once, starts_with, to_chars, to_decimal, trim,
};

fn all_chars() -> impl Iterator<Item = char> {
    (0..=0x10ffffu32).filter_map(char::from_u32)
}

#[test]
fn white_space_is_that_of_unicode() {
    for c in all_chars() {
        assert_eq!(is_whitespace(c), c.is_whitespace(), "{c:?}");
    }
}

#[test]
fn control_characters_are_those_of_unicode() {
    for c in all_chars() {
        assert_eq!(is_control(c), c.is_control(), "{c:?}");
    }
}

#[test]
fn primitives_agree_with_std() {
    let texts = [
        "", " ", "a", " a ", "a,b", ",", ",,", "a\nb", "a\r\nb\n", "\n", "\n\n", "\r", "a\r", "\r\n",
        "aa", "aaa", "aab", " x y\u{3000}z ", "ab", "b\na\r\r\n",
    ];
    for s in texts {
        let cs = to_chars(s);
        assert_eq!(from_chars(&cs), s);
        assert_eq!(from_chars(trim(&cs)), s.trim());
        let got: Vec<String> = split(&cs, ',').iter().map(|p| from_chars(p)).collect();
        let want: Vec<&str> = s.split(',').collect();
        assert_eq!(got, want);
        let got: Vec<String> = lines(&cs).iter().map(|p| from_chars(p)).collect();
        let want: Vec<&str> = s.lines().collect();
        assert_eq!(got, want, "{s:?}");
        let got = split_once(&cs, ',').map(|(a, b)| (from_chars(a), from_chars(b)));
        let want = s.split_once(',').map(|(a, b)| (a.to_string(), b.to_string()));
        assert_eq!(got, want);
        for pat in ["a", "aa", "", "ab", "zzzzz"] {
            let want = s.find(pat).map(|at| s[..at].chars().count());
            assert_eq!(find(&cs, &to_chars(pat)), want);
            assert_eq!(starts_with(&cs, pat), s.starts_with(pat));
            assert_eq!(
                has_word(&cs, &to_chars(pat)),
                s.split_whitespace().any(|w| w == pat)
            );
            if !pat.is_empty() {
                assert_eq!(replace_all(s, pat, "<a>"), s.replace(pat, "<a>"));
            }
        }
    }
}

#[test]
fn order_is_that_of_strings() {
    let texts = ["", "a", "aa", "ab", "b", "Z", "é", "e", "→", "🎉", "\u{ffff}", "\u{10000}"];
    for a in texts {
        for b in texts {
            let want = if a == b {
                Rank::Same
            } else if a < b {
                Rank::Before
            } else {
                Rank::After
            };
            assert_eq!(rank(&to_chars(a), &to_chars(b)), want, "{a:?} {b:?}");
        }
    }
}

#[test]
fn numbers_read_back() {
    for n in [0, 1, 9, 10, 99, 100, 12345, usize::MAX - 1, usize::MAX] {
        assert_eq!(to_decimal(n), n.to_string());
        assert_eq!(parse_number(&to_chars(&to_decimal(n))), Some(n));
    }
}

#[test]
fn numbers_are_read_as_std_does() {
    let max = usize::MAX.to_string();
    let over = max.clone() + "0";
    let texts = [
        "", "+", "-", "+1", "-1", "++1", "007", "1 ", " 1", "1a", "٣", "18446744073709551616", &max,
        &over,
    ];
    for s in texts {
        assert_eq!(parse_number(&to_chars(s)), s.parse::<usize>().ok(), "{s:?}");
    }
}

fn members(json: &str) -> Option<Vec<(String, String)>> {
    read_members(json)
}

fn pairs(ps: &[(&str, &str)]) -> Option<Vec<(String, String)>> {
    Some(ps.iter().map(|(k, v)| (k.to_string(), v.to_string())).collect())
}

#[test]
fn members_of_objects() {
    assert_eq!(members("{}"), pairs(&[]));
    assert_eq!(members(" { } "), pairs(&[]));
    assert_eq!(
        members(" {\"a\" : 1 ,\n\"b\\u0063\":[1, {\"x\":\"}\"}],\"a\":null} "),
        pairs(&[("a", "1"), ("bc", "[1, {\"x\":\"}\"}]"), ("a", "null")])
    );
    assert_eq!(members("{\"a\":true}"), pairs(&[("a", "true")]));
    for bad in [
        "", "[]", "3", "{", "}", "{\"a\"}", "{\"a\":}", "{\"a\":1,}", "{,}", "{a:1}", "{1:1}",
        "{\"a\":1 \"b\":2}", "{\"a\":1}x", "{\"a\":tru}", "{\"a\":1]", "{\"a\" 1}",
    ] {
        assert_eq!(members(bad), None, "{bad:?}");
    }
}

#[test]
fn values_of_members() {
    let ms = members("{\"a\":1,\"b\":2,\"c\":3,\"b\":4}").unwrap();
    assert_eq!(value_of(&ms, "a"), Some(Some("1".to_string())));
    assert_eq!(value_of(&ms, "c"), Some(Some("3".to_string())));
    assert_eq!(value_of(&ms, "d"), Some(None));
    assert_eq!(value_of(&ms, "b"), None);
}

#[test]
fn elements_of_arrays() {
    let texts = |json: &str| read_elements(json).map(|es| es.join("|"));
    assert_eq!(texts("[]").as_deref(), Some(""));
    assert_eq!(read_elements(" [ ] "), Some(Vec::new()));
    assert_eq!(
        texts(" [1 ,\n\"a,]\",[2, 3] , {\"x\":[]},null, -1.5e3]\n").as_deref(),
        Some("1|\"a,]\"|[2, 3]|{\"x\":[]}|null|-1.5e3")
    );
    for bad in [
        "", "{}", "3", "[", "]", "[,]", "[1,]", "[1 2]", "[1]x", "[tru]", "[1}", "[\"a]", "[01]",
        "[1,,2]", "[nullx]",
    ] {
        assert_eq!(read_elements(bad), None, "{bad:?}");
    }
}
