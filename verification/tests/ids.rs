use neutrino_http::ids::{is_room_id, is_server_name, is_user_id};
use neutrino_http::json::Json;
use neutrino_http::response::FedError;
use neutrino_http::text::{
    at_most, chars_of, decimal_text, find_pattern, parse_number, replace_all, same_text, split_on,
    text_of, trim,
};
use neutrino_http::textset::TextSet;

#[test]
fn identifiers() {
    for name in ["example.org", "example.org:8448", "127.0.0.1", "[::1]:8008", "x", "x:65535", "x:+80"] {
        assert!(is_server_name(name), "{name}");
    }
    for name in ["", "a b", "a_b", "x:y", "x:", ":80", "x:65536", "x:80:80", "[x]", "\u{e9}"] {
        assert!(!is_server_name(name), "{name}");
    }
    assert!(is_user_id("@alice:example.org"));
    assert!(!is_user_id("alice:example.org"));
    assert!(!is_user_id("@alice"));
    assert!(is_room_id("!abc:example.org"));
    assert!(is_room_id("!abc"));
    assert!(!is_room_id("#abc:example.org"));
    assert!(!is_room_id(""));
    let long: String = (0..256).map(|_| 'a').collect();
    assert!(!is_room_id(&format!("!{long}")));
    assert!(!is_user_id(&format!("@{long}:x")));
}

#[test]
fn texts_are_ordered_like_strings() {
    for (a, b) in [("", "a"), ("a", "b"), ("a", "ab"), ("Z", "a"), ("\u{ffff}", "\u{10000}")] {
        assert!(at_most(a, b) && !at_most(b, a));
        assert!(a <= b);
    }
    assert!(at_most("same", "same"));
    assert!(same_text("same", "same") && same_text("", ""));
    assert!(!same_text("same", "sam") && !same_text("same", "some") && !same_text("", "a"));
    let set = TextSet::from_items(&vec!["b".to_owned(), "a".to_owned(), "b".to_owned()]);
    assert_eq!(set.items(), vec!["a".to_owned(), "b".to_owned()]);
    assert_eq!(set.len(), 2);
    let (set, new) = set.insert("aa".to_owned());
    assert!(new && set.contains("aa") && !set.contains("c") && !set.is_empty());
    assert_eq!(set.into_items(), vec!["a".to_owned(), "aa".to_owned(), "b".to_owned()]);
}

#[test]
fn numbers() {
    assert_eq!(parse_number("0", 10), Some(0));
    assert_eq!(parse_number("+7", 10), Some(7));
    assert_eq!(parse_number("007", 10), Some(7));
    assert_eq!(parse_number("11", 10), None);
    assert_eq!(parse_number("", 10), None);
    assert_eq!(parse_number("+", 10), None);
    assert_eq!(parse_number("-1", 10), None);
    assert_eq!(parse_number("18446744073709551615", u64::MAX), Some(u64::MAX));
    assert_eq!(parse_number("18446744073709551616", u64::MAX), None);
    for n in [0, 9, 10, 99, 12_345, u64::MAX] {
        assert_eq!(decimal_text(n), n.to_string());
        assert_eq!(parse_number(&decimal_text(n), u64::MAX), Some(n));
    }
}

#[test]
fn pieces_of_texts() {
    let parts: Vec<String> = split_on(&chars_of("a,,b"), ',').iter().map(text_of).collect();
    assert_eq!(parts, vec!["a".to_owned(), "".to_owned(), "b".to_owned()]);
    assert_eq!(split_on(&chars_of(""), ',').len(), 1);
    assert_eq!(text_of(&trim(&chars_of(" \t\u{3000}x y\n"))), "x y");
    assert_eq!(find_pattern(&chars_of("abcabc"), "ca"), Some(2));
    assert_eq!(find_pattern(&chars_of("abc"), "d"), None);
    assert_eq!(find_pattern(&chars_of("abc"), ""), Some(0));
    assert_eq!(text_of(&replace_all(&chars_of("%3A%3a%3A"), "%3A", ':')), ":%3a:");
}

#[test]
fn errors_are_answered_by_kind() {
    let answer = |e: FedError| {
        let response = e.into_response();
        let text = |key| response.body.str_at(key).cloned().unwrap();
        (response.status, text("errcode"), text("error"))
    };
    let wanted = |status: u16, errcode: &str, error: &str| (status, errcode.to_owned(), error.to_owned());
    assert_eq!(answer(FedError::BadRequest("b")), wanted(400, "M_INVALID_PARAM", "b"));
    assert_eq!(answer(FedError::Unauthorized("u")), wanted(401, "M_UNAUTHORIZED", "u"));
    assert_eq!(answer(FedError::Forbidden("f")), wanted(403, "M_FORBIDDEN", "f"));
    assert_eq!(answer(FedError::RoomNotFound), wanted(404, "M_NOT_FOUND", "room not found"));
    assert_eq!(answer(FedError::Storage("s".to_owned())), wanted(500, "M_UNKNOWN", "s"));
    assert_eq!(answer(FedError::Internal("i")), wanted(500, "M_UNKNOWN", "i"));
}

#[test]
fn objects_are_changed_member_by_member() {
    let object = Json::empty_object().with("a", Json::number("1")).with("b", Json::Null);
    let object = object.with("a", Json::number("2"));
    assert_eq!(object.get("a"), Some(&Json::number("2")));
    assert_eq!(object.get("b"), Some(&Json::Null));
    assert_eq!(object.copy().without("a").get("a"), None);
    assert_eq!(object.get("a").unwrap().as_u64(), Some(2));
    assert_eq!(Json::Null.with("a", Json::Null), Json::Null);
    assert!(Json::single("t", Json::Bool(true)).true_at("t"));
}
