use rbx_project::text::{
    contains_char, copy_text, replace_text, rsplit_once_at, split_once_at, strip_prefix_text,
    text_order, trim_text,
};

#[test]
fn trim_matches_std_trim() {
    for s in ["  a b  ", "\u{3000} a \u{A0}", "\u{200B}a", "", "   ", "\t\n x\r\n", "\u{85}y\u{2029}"] {
        assert_eq!(trim_text(s), s.trim());
    }
}

#[test]
fn split_functions_match_std() {
    for s in ["a=b=c", "=", "none", "", "ü=ö"] {
        assert_eq!(
            split_once_at(s, '='),
            s.split_once('=').map(|(a, b)| (a.to_string(), b.to_string()))
        );
    }
    for s in ["a@b@c", "@", "none", "", "x@"] {
        assert_eq!(
            rsplit_once_at(s, '@'),
            s.rsplit_once('@').map(|(a, b)| (a.to_string(), b.to_string()))
        );
    }
}

#[test]
fn strip_and_replace_match_std() {
    assert_eq!(strip_prefix_text("wally:a/b@1", "wally:"), Some("a/b@1".to_string()));
    assert_eq!(strip_prefix_text("walla", "wally:"), None);
    assert_eq!(strip_prefix_text("x", ""), Some("x".to_string()));
    for s in ["\"a\"b\"", "", "no quotes", "\"\""] {
        assert_eq!(replace_text(s, "\"", ""), s.replace('"', ""));
    }
    assert_eq!(replace_text("aaa", "aa", "b"), "aaa".replace("aa", "b"));
}

#[test]
fn contains_and_copy() {
    assert!(contains_char("a@b", '@'));
    assert!(!contains_char("ab", '@'));
    assert_eq!(copy_text("héllo"), "héllo");
}

#[test]
fn text_order_matches_string_ord() {
    let words = ["", "a", "ab", "b", "B", "é", "e", "\u{10000}", "\u{FFFF}"];
    for x in words {
        for y in words {
            let expected = match x.cmp(y) {
                std::cmp::Ordering::Less => -1,
                std::cmp::Ordering::Equal => 0,
                std::cmp::Ordering::Greater => 1,
            };
            assert_eq!(text_order(x, y), expected);
        }
    }
}
