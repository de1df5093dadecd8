use music_management::json::{json_get, json_text, json_then_get, Json, JsonMember};
use music_management::text::{decimal_text, last_split_part, str_equals, text_less_exec, trim_matches};

fn string(text: &str) -> Json {
    Json::Str(text.to_string())
}

fn object(members: Vec<(&str, Json)>) -> Json {
    Json::Object(
        members
            .into_iter()
            .map(|(key, value)| JsonMember { key: key.to_string(), value })
            .collect(),
    )
}

#[test]
fn renders_scalars() {
    assert_eq!(json_text(&Json::Null), "null");
    assert_eq!(json_text(&Json::Bool(true)), "true");
    assert_eq!(json_text(&Json::Bool(false)), "false");
    assert_eq!(json_text(&Json::Number("12.5".to_string())), "12.5");
    assert_eq!(json_text(&string("abc")), "\"abc\"");
}

#[test]
fn renders_string_escapes() {
    assert_eq!(json_text(&string("a\"b\\c")), "\"a\\\"b\\\\c\"");
    assert_eq!(json_text(&string("line\nnext\ttab\r")), "\"line\\nnext\\ttab\\r\"");
    assert_eq!(json_text(&string("\u{8}\u{c}\u{1}\u{1f}")), "\"\\b\\f\\u0001\\u001f\"");
    assert_eq!(json_text(&string("é/ü~\u{7f}")), "\"é/ü~\u{7f}\"");
}

#[test]
fn renders_arrays_and_objects_compactly() {
    let value = object(vec![
        ("b", Json::Array(vec![Json::Number("1".to_string()), string("x"), Json::Null])),
        ("a", object(vec![])),
        ("q\"k", Json::Array(vec![])),
    ]);
    assert_eq!(json_text(&value), "{\"b\":[1,\"x\",null],\"a\":{},\"q\\\"k\":[]}");
}

#[test]
fn get_finds_the_first_member_of_an_object() {
    let value = object(vec![("k", string("one")), ("k", string("two")), ("m", Json::Null)]);
    assert_eq!(json_text(json_get(&value, "k").unwrap()), "\"one\"");
    assert!(json_get(&value, "z").is_none());
    assert!(json_get(&string("k"), "k").is_none());
    assert!(json_get(&Json::Array(vec![value]), "k").is_none());
}

#[test]
fn then_get_follows_a_path() {
    let value = object(vec![("a", object(vec![("b", string("deep"))]))]);
    let found = json_then_get(json_get(&value, "a"), "b");
    assert_eq!(json_text(found.unwrap()), "\"deep\"");
    assert!(json_then_get(json_get(&value, "x"), "b").is_none());
    assert!(json_then_get(None, "b").is_none());
}

#[test]
fn trims_all_surrounding_quotes() {
    assert_eq!(trim_matches("\"abc\"", '"'), "abc");
    assert_eq!(trim_matches("\"\"a\"b\"\"", '"'), "a\"b");
    assert_eq!(trim_matches("\"\"\"", '"'), "");
    assert_eq!(trim_matches("", '"'), "");
    assert_eq!(trim_matches("plain", '"'), "plain");
}

#[test]
fn unquoting_a_rendered_plain_string_gives_it_back() {
    for text in ["", "abc", "3f1c-02aa", "Ünïcødé name", "a b/c"] {
        let rendered = json_text(&string(text));
        assert_eq!(trim_matches(&rendered, '"'), text);
    }
    // A string ending in a quote loses that quote when its JSON text is trimmed.
    let rendered = json_text(&string("ab\""));
    assert_eq!(trim_matches(&rendered, '"'), "ab\\");
}

#[test]
fn takes_the_part_after_the_last_separator() {
    assert_eq!(last_split_part("https://listenbrainz.org/playlist/abc-123", '/'), "abc-123");
    assert_eq!(last_split_part("no-separator", '/'), "no-separator");
    assert_eq!(last_split_part("ends/", '/'), "");
    assert_eq!(last_split_part("", '/'), "");
}

#[test]
fn writes_decimal_numbers() {
    assert_eq!(decimal_text(0), "0");
    assert_eq!(decimal_text(7), "7");
    assert_eq!(decimal_text(10), "10");
    assert_eq!(decimal_text(4096), "4096");
    assert_eq!(decimal_text(usize::MAX), usize::MAX.to_string());
}

#[test]
fn decimal_texts_of_different_numbers_differ() {
    let labels: Vec<String> = (0..120).map(decimal_text).collect();
    for i in 0..labels.len() {
        for j in 0..labels.len() {
            assert_eq!(i == j, labels[i] == labels[j]);
        }
    }
}

#[test]
fn orders_texts_like_rust_strings() {
    let words = ["", "a", "ab", "b", "B", "é", "z", "zz", "Ä", "aa"];
    for x in words {
        for y in words {
            assert_eq!(text_less_exec(&x.to_string(), &y.to_string()), x < y, "{x} {y}");
        }
    }
}

#[test]
fn compares_texts_for_equality() {
    assert!(str_equals("abc", "abc"));
    assert!(!str_equals("abc", "abd"));
    assert!(!str_equals("ab", "abc"));
}
