use zed_lean4_companion::json::{parse_json, print_json, Json, Member};
use zed_lean4_companion::messages::send_to_server;

fn json(text: &str) -> Json {
    parse_json(text.as_bytes()).unwrap()
}

#[test]
fn values_are_read() {
    let v = json(r#"{"a": [1, -2, true, null, "x\ny"], "b": {"c": 0}}"#);
    let items = v.get("a").as_array().unwrap();
    assert_eq!(items[0].as_u64(), Some(1));
    assert_eq!(items[0].as_i64(), Some(1));
    assert_eq!(items[1].as_u64(), None);
    assert_eq!(items[1].as_i64(), Some(-2));
    assert_eq!(items[2].as_bool(), Some(true));
    assert!(items[3].is_null());
    assert_eq!(items[4].as_str(), Some("x\ny"));
    assert_eq!(v.get("b").get("c").as_u64(), Some(0));
    assert!(v.get("b").get("d").get("e").is_null());
    assert!(v.get("a").get("a").is_null());
}

#[test]
fn what_is_not_json_is_refused() {
    assert!(parse_json(b"").is_none());
    assert!(parse_json(b"{").is_none());
    assert!(parse_json(b"{} x").is_none());
    assert!(parse_json(b"\"\xff\"").is_none());
}

#[test]
fn numbers_keep_their_kind() {
    assert_eq!(json("18446744073709551615").as_u64(), Some(u64::MAX));
    assert_eq!(json("18446744073709551615").as_i64(), None);
    assert_eq!(json("1.5").as_u64(), None);
    assert_eq!(json("1.0").as_i64(), None);
    assert_eq!(print_json(&json("1.5")), "1.5");
    assert_eq!(print_json(&json("-3")), "-3");
}

#[test]
fn the_later_of_two_members_counts() {
    let v = json(r#"{"a": 1, "a": 2}"#);
    assert_eq!(v.get("a").as_u64(), Some(2));
    assert_eq!(print_json(&v), r#"{"a":2}"#);
}

#[test]
fn the_later_of_two_members_is_written() {
    let member = |key: &str, n: u64| Member {
        key: key.to_string(),
        value: Json::Unsigned(n),
    };
    let v = Json::Object(vec![member("a", 1), member("b", 2), member("a", 3), member("a", 4)]);
    assert_eq!(v.get("a").as_u64(), Some(4));
    assert_eq!(print_json(&v), r#"{"a":4,"b":2}"#);
}

#[test]
fn members_stand_in_the_order_of_their_names() {
    let v = json(r#"{"b": 1, "é": 2, "a": {"z": 0, "y": 0}, "B": 3}"#);
    match v {
        Json::Object(members) => {
            let keys: Vec<&str> = members.iter().map(|m| m.key.as_str()).collect();
            assert_eq!(keys, ["B", "a", "b", "é"]);
        }
        _ => panic!("not an object"),
    }
}

#[test]
fn values_read_back_from_their_text() {
    for text in [
        "null",
        "[]",
        "{}",
        r#"{"a":"\"\\\n\u0001⊢","b":-9223372036854775808,"c":18446744073709551615,"d":null}"#,
        r#"[{"p":"1"},[true,false],1.25]"#,
    ] {
        let v = json(text);
        assert_eq!(print_json(&v), text);
        assert_eq!(json(&print_json(&v)), v);
        assert_eq!(v.clone(), v);
    }
}

#[test]
fn a_message_to_the_server_is_framed() {
    assert_eq!(
        send_to_server(&json(r#"{"id": 1}"#)),
        b"Content-Length: 8\r\n\r\n{\"id\":1}".to_vec()
    );
}
