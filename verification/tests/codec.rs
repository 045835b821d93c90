//! Tests of the JSON codec, the numeral functions, the router and the
//! identifier extraction, including a cross-check against serde_json.

use users_service::handlers::{body_of, get_user_from_request_body};
use users_service::json::{parse_user, user_to_json, users_to_json};
use users_service::num::{i32_to_string, parse_i32};
use users_service::router::{get_id, route, Route};
use users_service::User;

fn user(id: Option<i32>, name: &str, email: &str) -> User {
    User {
        id,
        name: name.to_string(),
        email: email.to_string(),
    }
}

#[test]
fn encode_user_with_id() {
    let u = user(Some(7), "Ada", "ada@example.com");
    assert_eq!(
        user_to_json(&u),
        "{\"id\":7,\"name\":\"Ada\",\"email\":\"ada@example.com\"}"
    );
}

#[test]
fn encode_user_without_id() {
    let u = user(None, "Ada", "a@b");
    assert_eq!(user_to_json(&u), "{\"id\":null,\"name\":\"Ada\",\"email\":\"a@b\"}");
}

#[test]
fn encode_escapes_special_characters() {
    let u = user(Some(1), "A\"d\\a", "a\nb\tc");
    assert_eq!(
        user_to_json(&u),
        "{\"id\":1,\"name\":\"A\\\"d\\\\a\",\"email\":\"a\\nb\\tc\"}"
    );
}

#[test]
fn encode_user_list() {
    let us = vec![user(Some(1), "A", "a"), user(Some(2), "B", "b")];
    assert_eq!(
        users_to_json(&us),
        "[{\"id\":1,\"name\":\"A\",\"email\":\"a\"},{\"id\":2,\"name\":\"B\",\"email\":\"b\"}]"
    );
    assert_eq!(users_to_json(&Vec::new()), "[]");
}

#[test]
fn round_trip_keeps_fields() {
    for u in [
        user(Some(7), "Ada", "ada@example.com"),
        user(None, "A\"d\\a", "a\nb\r\tc"),
        user(Some(-3), "", ""),
        user(Some(i32::MAX), "x", "y"),
        user(Some(i32::MIN), "x", "y"),
    ] {
        let back = parse_user(&user_to_json(&u)).expect("round trip parses");
        assert_eq!(back.id, u.id);
        assert_eq!(back.name, u.name);
        assert_eq!(back.email, u.email);
    }
}

#[test]
fn parse_accepts_whitespace_and_missing_id() {
    let u = parse_user(" { \"name\" : \"Ada\" , \"email\" : \"a@b\" } ").unwrap();
    assert_eq!(u.id, None);
    assert_eq!(u.name, "Ada");
    assert_eq!(u.email, "a@b");
    let u = parse_user("{\"id\":null,\"name\":\"x\",\"email\":\"y\"}").unwrap();
    assert_eq!(u.id, None);
}

#[test]
fn parse_rejects_malformed_objects() {
    assert!(parse_user("").is_none());
    assert!(parse_user("{}").is_none());
    assert!(parse_user("{\"name\":\"Ada\"}").is_none());
    assert!(parse_user("{\"name\":\"Ada\",\"email\":\"a@b\"").is_none());
    assert!(parse_user("{\"name\":\"Ada\",\"email\":2}").is_none());
    assert!(parse_user("{\"name\":\"unterminated").is_none());
    assert!(parse_user("{\"name\":\"bad\\q\",\"email\":\"a\"}").is_none());
    assert!(parse_user("{\"name\":\"a\",\"email\":\"b\"} trailing").is_none());
}

#[test]
fn serde_reads_what_the_encoder_writes() {
    let u = user(Some(12), "A\"d\\a", "line1\nline2");
    let text = user_to_json(&u);
    let v: serde_json::Value = serde_json::from_str(&text).expect("valid JSON");
    assert_eq!(v.get("id").unwrap().as_i64(), Some(12));
    assert_eq!(v.get("name").unwrap().as_str(), Some("A\"d\\a"));
    assert_eq!(v.get("email").unwrap().as_str(), Some("line1\nline2"));
}

#[test]
fn numerals_print_and_parse() {
    assert_eq!(i32_to_string(0), "0");
    assert_eq!(i32_to_string(-42), "-42");
    assert_eq!(i32_to_string(2147483647), "2147483647");
    assert_eq!(i32_to_string(-2147483648), "-2147483648");
    assert_eq!(parse_i32("17"), Some(17));
    assert_eq!(parse_i32("+17"), Some(17));
    assert_eq!(parse_i32("-2147483648"), Some(i32::MIN));
    assert_eq!(parse_i32("2147483648"), None);
    assert_eq!(parse_i32("-2147483649"), None);
    assert_eq!(parse_i32(""), None);
    assert_eq!(parse_i32("-"), None);
    assert_eq!(parse_i32("1a"), None);
    assert_eq!(parse_i32("007"), Some(7));
}

#[test]
fn routes_match_in_order() {
    assert_eq!(route("POST /users HTTP/1.1"), Route::Create);
    assert_eq!(route("GET /users/3 HTTP/1.1"), Route::GetOne);
    assert_eq!(route("GET /users HTTP/1.1"), Route::GetAll);
    assert_eq!(route("DELETE /users/3 HTTP/1.1"), Route::Delete);
    assert_eq!(route("PUT /users/3 HTTP/1.1"), Route::NotFound);
    assert_eq!(route("GET /user HTTP/1.1"), Route::NotFound);
    assert_eq!(route(""), Route::NotFound);
}

#[test]
fn id_is_third_slash_token_first_word() {
    assert_eq!(get_id("GET /users/42 HTTP/1.1"), "42");
    assert_eq!(get_id("DELETE /users/7 HTTP/1.1"), "7");
    assert_eq!(get_id("GET /users/ HTTP/1.1"), "HTTP");
    assert_eq!(get_id("GET /users HTTP/1.1"), "1.1");
    assert_eq!(get_id("no slashes here"), "");
    assert_eq!(get_id("one/two"), "");
}

#[test]
fn body_follows_first_blank_line() {
    assert_eq!(body_of("POST /users\r\nH: v\r\n\r\n{\"a\":1}"), "{\"a\":1}");
    assert_eq!(body_of("no separator"), "no separator");
    assert_eq!(body_of("a\r\n\r\nb\r\n\r\nc"), "b\r\n\r\nc");
}

#[test]
fn request_body_parses_to_user() {
    let req = "POST /users HTTP/1.1\r\nContent-Type: application/json\r\n\r\n{\"name\":\"Ada\",\"email\":\"a@b\"}";
    let u = get_user_from_request_body(req).unwrap();
    assert_eq!(u.id, None);
    assert_eq!(u.name, "Ada");
    assert_eq!(u.email, "a@b");
    assert!(get_user_from_request_body("POST /users\r\n\r\n{bad}").is_none());
}
