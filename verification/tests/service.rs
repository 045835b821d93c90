//! End-to-end tests of the request handlers over the in-memory table.

use users_service::handlers::handle_request;
use users_service::table::UserTable;

const OK: &str = "HTTP/1.1 200 OK\r\nContent-Type: application/json\r\n\r\n";
const NOT_FOUND: &str = "HTTP/1.1 404 NOT FOUND\r\n\r\n";
const INTERNAL_SERVER_ERROR: &str = "HTTP/1.1 500 INTERNAL_SERVER_ERROR\r\n\r\n";

fn post(table: &mut UserTable, name: &str, email: &str) -> (String, String) {
    let request = format!(
        "POST /users HTTP/1.1\r\nContent-Type: application/json\r\n\r\n{{\"name\":\"{}\",\"email\":\"{}\"}}",
        name, email
    );
    handle_request(&request, table)
}

#[test]
fn create_then_list_includes_user() {
    let mut table = UserTable::new();
    let (status, body) = post(&mut table, "Ada", "ada@example.com");
    assert_eq!(status, OK);
    assert_eq!(body, "User Created");
    let (status, body) = handle_request("GET /users HTTP/1.1\r\n\r\n", &mut table);
    assert_eq!(status, OK);
    assert_eq!(
        body,
        "[{\"id\":1,\"name\":\"Ada\",\"email\":\"ada@example.com\"}]"
    );
}

#[test]
fn get_unassigned_id_is_not_found() {
    let mut table = UserTable::new();
    post(&mut table, "Ada", "ada@example.com");
    let (status, body) = handle_request("GET /users/999 HTTP/1.1\r\n\r\n", &mut table);
    assert_eq!(status, NOT_FOUND);
    assert_eq!(body, "User not found");
}

#[test]
fn get_non_numeric_id_is_invalid() {
    let mut table = UserTable::new();
    let (status, body) = handle_request("GET /users/abc HTTP/1.1\r\n\r\n", &mut table);
    assert_eq!(status, INTERNAL_SERVER_ERROR);
    assert_eq!(body, "Invalid ID");
}

#[test]
fn delete_then_get_is_not_found() {
    let mut table = UserTable::new();
    post(&mut table, "Ada", "ada@example.com");
    post(&mut table, "Grace", "grace@example.com");
    let (status, body) = handle_request("DELETE /users/1 HTTP/1.1\r\n\r\n", &mut table);
    assert_eq!(status, OK);
    assert_eq!(body, "User Deleted");
    let (status, body) = handle_request("GET /users/1 HTTP/1.1\r\n\r\n", &mut table);
    assert_eq!(status, NOT_FOUND);
    assert_eq!(body, "User not found");
    let (status, _) = handle_request("GET /users/2 HTTP/1.1\r\n\r\n", &mut table);
    assert_eq!(status, OK);
}

#[test]
fn delete_missing_id_leaves_table_alone() {
    let mut table = UserTable::new();
    post(&mut table, "Ada", "ada@example.com");
    let (status, body) = handle_request("DELETE /users/7 HTTP/1.1\r\n\r\n", &mut table);
    assert_eq!(status, NOT_FOUND);
    assert_eq!(body, "User not found");
    assert_eq!(table.len(), 1);
    let (_, listing) = handle_request("GET /users HTTP/1.1\r\n\r\n", &mut table);
    assert_eq!(
        listing,
        "[{\"id\":1,\"name\":\"Ada\",\"email\":\"ada@example.com\"}]"
    );
}

#[test]
fn list_empty_table_is_empty_array() {
    let mut table = UserTable::new();
    let (status, body) = handle_request("GET /users HTTP/1.1\r\n\r\n", &mut table);
    assert_eq!(status, OK);
    assert_eq!(body, "[]");
}

#[test]
fn unknown_route_is_not_found() {
    let mut table = UserTable::new();
    let (status, body) = handle_request("PUT /users/1 HTTP/1.1\r\n\r\n", &mut table);
    assert_eq!(status, NOT_FOUND);
    assert_eq!(body, "Not Found");
    let (status, _) = handle_request("GET /accounts HTTP/1.1\r\n\r\n", &mut table);
    assert_eq!(status, NOT_FOUND);
    let (status, _) = handle_request("", &mut table);
    assert_eq!(status, NOT_FOUND);
    assert_eq!(table.len(), 0);
}

#[test]
fn bad_body_is_error() {
    let mut table = UserTable::new();
    let (status, body) = handle_request(
        "POST /users HTTP/1.1\r\n\r\nnot json at all",
        &mut table,
    );
    assert_eq!(status, INTERNAL_SERVER_ERROR);
    assert_eq!(body, "Error");
    assert_eq!(table.len(), 0);
}

#[test]
fn missing_email_is_error() {
    let mut table = UserTable::new();
    let (status, _) = handle_request(
        "POST /users HTTP/1.1\r\n\r\n{\"name\":\"Ada\"}",
        &mut table,
    );
    assert_eq!(status, INTERNAL_SERVER_ERROR);
    assert_eq!(table.len(), 0);
}

#[test]
fn body_id_is_ignored_on_create() {
    let mut table = UserTable::new();
    let (status, _) = handle_request(
        "POST /users HTTP/1.1\r\n\r\n{\"id\":42,\"name\":\"Ada\",\"email\":\"a@b\"}",
        &mut table,
    );
    assert_eq!(status, OK);
    let (_, body) = handle_request("GET /users/1 HTTP/1.1\r\n\r\n", &mut table);
    assert_eq!(body, "{\"id\":1,\"name\":\"Ada\",\"email\":\"a@b\"}");
}

#[test]
fn identifiers_keep_counting_after_delete() {
    let mut table = UserTable::new();
    post(&mut table, "Ada", "a@b");
    handle_request("DELETE /users/1 HTTP/1.1\r\n\r\n", &mut table);
    post(&mut table, "Grace", "g@h");
    let (status, body) = handle_request("GET /users/2 HTTP/1.1\r\n\r\n", &mut table);
    assert_eq!(status, OK);
    assert_eq!(body, "{\"id\":2,\"name\":\"Grace\",\"email\":\"g@h\"}");
}

#[test]
fn trailing_slash_id_reads_http_token() {
    let mut table = UserTable::new();
    let (status, body) = handle_request("GET /users/ HTTP/1.1\r\n\r\n", &mut table);
    assert_eq!(status, INTERNAL_SERVER_ERROR);
    assert_eq!(body, "Invalid ID");
}
