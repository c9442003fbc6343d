use request_router::form::decode_user_data;
use request_router::json::{decode_some_json, record_from_json, JsonError};
use request_router::number::{decimal_text, parse_unsigned};
use request_router::percent::{form_decode, percent_decode};
use rocket::http::RawStr;

fn text(s: &str) -> Option<String> {
    Some(s.to_string())
}

#[test]
fn percent_decode_reads_escapes() {
    assert_eq!(percent_decode("%41"), text("A"));
    assert_eq!(percent_decode("a%20b"), text("a b"));
    assert_eq!(percent_decode("%2F%2f"), text("//"));
    assert_eq!(percent_decode("%e4%BD%a0"), text("你"));
    assert_eq!(percent_decode("caf%C3%A9"), text("café"));
}

#[test]
fn percent_decode_keeps_plain_text() {
    assert_eq!(percent_decode(""), text(""));
    assert_eq!(percent_decode("plain"), text("plain"));
    assert_eq!(percent_decode("a+b"), text("a+b"));
    assert_eq!(percent_decode("你好"), text("你好"));
}

#[test]
fn percent_decode_keeps_broken_escapes() {
    assert_eq!(percent_decode("%"), text("%"));
    assert_eq!(percent_decode("%4"), text("%4"));
    assert_eq!(percent_decode("%zz"), text("%zz"));
    assert_eq!(percent_decode("%4g"), text("%4g"));
    assert_eq!(percent_decode("%%41"), text("%A"));
    assert_eq!(percent_decode("100%25"), text("100%"));
    assert_eq!(percent_decode("%2541"), text("%41"));
}

#[test]
fn percent_decode_refuses_what_is_no_text() {
    assert_eq!(percent_decode("%FF"), None);
    assert_eq!(percent_decode("%C3"), None);
    assert_eq!(percent_decode("%C3%28"), None);
    assert_eq!(percent_decode("%ED%A0%80"), None);
    assert_eq!(percent_decode("ok%80"), None);
}

#[test]
fn form_decode_reads_plus_as_space() {
    assert_eq!(form_decode("a+b"), text("a b"));
    assert_eq!(form_decode("a%2Bb"), text("a+b"));
    assert_eq!(form_decode("+%20+"), text("   "));
    assert_eq!(form_decode("ann%40example.com"), text("ann@example.com"));
    assert_eq!(form_decode("%FF"), None);
}

#[test]
fn percent_decode_agrees_with_rocket() {
    let samples = [
        "", "a", "%", "%4", "%41", "%zz", "%4G", "%g4", "a%20b", "%2F", "%2f", "%00", "%7F", "%80",
        "%FF", "%C3%A9", "%c3%a9", "%C3", "%C3%28", "%E4%BD%A0", "%E4%BD", "%F0%9F%98%80",
        "%ED%A0%80", "%%", "%%41", "%25", "%2541", "100%", "a+b", "你好", "é%41é", "%41%42%43",
        "x%", "x%4", "%4%41", "%A", "%a1", "%1a%1A", "/a/b", "?&=",
    ];
    for sample in samples {
        let theirs = RawStr::new(sample).percent_decode().ok().map(|s| s.into_owned());
        assert_eq!(percent_decode(sample), theirs, "sample {:?}", sample);
    }
}

#[test]
fn form_decode_agrees_with_rocket() {
    let samples = [
        "", "a+b", "+", "++", "%2B", "a%20b+c", "%FF+", "+%C3%A9+", "%", "%+1", "%2+", "name",
        "open+sesame", "ann%40example.com", "%E4%BD%A0+好",
    ];
    for sample in samples {
        let theirs = RawStr::new(sample).url_decode().ok().map(|s| s.into_owned());
        assert_eq!(form_decode(sample), theirs, "sample {:?}", sample);
    }
}

#[test]
fn parse_unsigned_reads_digits() {
    assert_eq!(parse_unsigned("0"), Some(0));
    assert_eq!(parse_unsigned("7"), Some(7));
    assert_eq!(parse_unsigned("42"), Some(42));
    assert_eq!(parse_unsigned("007"), Some(7));
    assert_eq!(parse_unsigned("+7"), Some(7));
    assert_eq!(parse_unsigned(&usize::MAX.to_string()), Some(usize::MAX));
}

#[test]
fn parse_unsigned_refuses_other_text() {
    assert_eq!(parse_unsigned(""), None);
    assert_eq!(parse_unsigned("+"), None);
    assert_eq!(parse_unsigned("-7"), None);
    assert_eq!(parse_unsigned("++7"), None);
    assert_eq!(parse_unsigned("7+"), None);
    assert_eq!(parse_unsigned("abc"), None);
    assert_eq!(parse_unsigned("7a"), None);
    assert_eq!(parse_unsigned(" 7"), None);
    assert_eq!(parse_unsigned("7 "), None);
    assert_eq!(parse_unsigned("٧"), None);
    assert_eq!(parse_unsigned("1.0"), None);
}

#[test]
fn parse_unsigned_refuses_what_does_not_fit() {
    let mut over = usize::MAX.to_string();
    let last = over.pop().unwrap();
    over.push(((last as u8) + 1) as char);
    assert_eq!(parse_unsigned(&over), None);
    assert_eq!(parse_unsigned("340282366920938463463374607431768211456"), None);
    assert_eq!(parse_unsigned(&format!("{}0", usize::MAX)), None);
}

#[test]
fn parse_unsigned_agrees_with_std() {
    let samples = [
        "", "0", "1", "+1", "-1", "+", "-", "00", "+00", "18446744073709551615",
        "18446744073709551616", "99999999999999999999", "1a", "a1", "1 ", "١", "+-1", "1_000",
        "0x10", "4294967295", "4294967296",
    ];
    for sample in samples {
        assert_eq!(parse_unsigned(sample), sample.parse::<usize>().ok(), "sample {:?}", sample);
    }
}

#[test]
fn decimal_text_writes_digits() {
    assert_eq!(decimal_text(0), "0");
    assert_eq!(decimal_text(7), "7");
    assert_eq!(decimal_text(10), "10");
    assert_eq!(decimal_text(255), "255");
    assert_eq!(decimal_text(1000), "1000");
    assert_eq!(decimal_text(usize::MAX), usize::MAX.to_string());
}

#[test]
fn decimal_text_is_read_back() {
    for n in [0usize, 1, 9, 10, 99, 100, 12345, usize::MAX - 1, usize::MAX] {
        assert_eq!(parse_unsigned(&decimal_text(n)), Some(n));
    }
}

#[test]
fn user_data_is_read() {
    let form = decode_user_data("name=Ann+Lee&age=30&email=ann%40example.com&password=p%26w").unwrap();
    assert_eq!(form.name, "Ann Lee");
    assert_eq!(form.age, "30");
    assert_eq!(form.email, "ann@example.com");
    assert_eq!(form.password, "p&w");
}

#[test]
fn user_data_needs_all_four_fields() {
    assert!(decode_user_data("age=30&email=e&password=p").is_none());
    assert!(decode_user_data("name=n&email=e&password=p").is_none());
    assert!(decode_user_data("name=n&age=30&password=p").is_none());
    assert!(decode_user_data("name=n&age=30&email=e").is_none());
    assert!(decode_user_data("name=n&age=30&email=e&password=p").is_some());
}

#[test]
fn user_data_keys_are_taken_as_written() {
    assert!(decode_user_data("Name=n&age=30&email=e&password=p").is_none());
    assert!(decode_user_data("n%61me=n&age=30&email=e&password=p").is_none());
}

#[test]
fn user_data_refuses_a_value_that_is_no_text() {
    assert!(decode_user_data("name=n&age=30&email=%FF&password=p").is_none());
    assert!(decode_user_data("name=n&age=30&email=e&email=%FF&password=p").is_some());
}

#[test]
fn some_json_is_read() {
    let record = decode_some_json("{\"name\":\"Alice\",\"age\":30}").unwrap();
    assert_eq!(record.name, "Alice");
    assert_eq!(record.age, 30);
}

#[test]
fn some_json_says_what_is_wrong() {
    assert_eq!(decode_some_json("{").err(), Some(JsonError::Malformed));
    assert_eq!(decode_some_json("").err(), Some(JsonError::Malformed));
    assert_eq!(decode_some_json("{\"name\":\"A\",\"age\":30}}").err(), Some(JsonError::Malformed));
    assert_eq!(decode_some_json("{\"name\":\"A\",\"age\":999}").err(), Some(JsonError::Shape));
    assert_eq!(decode_some_json("{\"name\":\"A\"}").err(), Some(JsonError::Shape));
    assert_eq!(decode_some_json("null").err(), Some(JsonError::Shape));
    assert_eq!(decode_some_json("\"name\"").err(), Some(JsonError::Shape));
}

#[test]
fn record_is_taken_out_of_a_document() {
    let mut members = serde_json::Map::new();
    members.insert("name".to_string(), serde_json::Value::from("Bob"));
    members.insert("age".to_string(), serde_json::Value::from(41u64));
    members.insert("other".to_string(), serde_json::Value::Null);
    let record = record_from_json(&serde_json::Value::Object(members)).unwrap();
    assert_eq!(record.name, "Bob");
    assert_eq!(record.age, 41);
}

#[test]
fn record_needs_the_right_members() {
    let document = |name: serde_json::Value, age: serde_json::Value| {
        let mut members = serde_json::Map::new();
        members.insert("name".to_string(), name);
        members.insert("age".to_string(), age);
        serde_json::Value::Object(members)
    };
    let name = || serde_json::Value::from("Bob");
    assert!(record_from_json(&document(name(), serde_json::Value::from(255u64))).is_some());
    assert!(record_from_json(&document(name(), serde_json::Value::from(256u64))).is_none());
    assert!(record_from_json(&document(name(), serde_json::Value::from(-1i64))).is_none());
    assert!(record_from_json(&document(name(), serde_json::Value::from(1.5f64))).is_none());
    assert!(record_from_json(&document(name(), serde_json::Value::from("41"))).is_none());
    assert!(record_from_json(&document(name(), serde_json::Value::from(u64::MAX))).is_none());
    assert!(record_from_json(&document(serde_json::Value::from(7u64), serde_json::Value::from(7u64))).is_none());
    assert!(record_from_json(&document(serde_json::Value::Bool(true), serde_json::Value::from(7u64))).is_none());
}

#[test]
fn record_is_in_an_object_only() {
    assert!(record_from_json(&serde_json::Value::Null).is_none());
    assert!(record_from_json(&serde_json::Value::from("name")).is_none());
    assert!(record_from_json(&serde_json::Value::from(vec!["Bob", "41"])).is_none());
    assert!(record_from_json(&serde_json::Value::Object(serde_json::Map::new())).is_none());
}
