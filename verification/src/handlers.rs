//! The four request handlers and the dispatching entry point.
//!
//! Each handler is verified against the in-memory table model. The pure
//! response functions beside them map store outcomes — parse failure,
//! connection failure, a fetched row, a deleted-row count — to the exact
//! status line and body the service answers with, so a caller driving a real
//! store can reuse the same verified decision logic.

use vstd::prelude::*;
use crate::{User, UserView};
use crate::json::{
    parse_user, spec_parse_user, spec_user_json, spec_users_json, user_to_json, users_to_json,
};
use crate::num::{parse_i32, spec_parse_i32};
use crate::router::{get_id, route, spec_get_id, spec_route, Route};
use crate::table::{has_id, spec_lookup, UserTable};
use crate::text::{match_at, spec_match_at};
use vstd::string::StringExecFns;

verus! {

/// The status line sent with every successful response.
pub open spec fn spec_ok_response() -> Seq<char> {
    "HTTP/1.1 200 OK\r\nContent-Type: application/json\r\n\r\n"@
}

/// The status line for a missing route or row.
pub open spec fn spec_not_found() -> Seq<char> {
    "HTTP/1.1 404 NOT FOUND\r\n\r\n"@
}

/// The status line for bad identifiers and store failures.
pub open spec fn spec_internal_error() -> Seq<char> {
    "HTTP/1.1 500 INTERNAL_SERVER_ERROR\r\n\r\n"@
}

/// The 200 status line, as a string.
pub fn ok_response() -> (r: String)
    ensures
        r@ == spec_ok_response(),
{
    String::from_str("HTTP/1.1 200 OK\r\nContent-Type: application/json\r\n\r\n")
}

/// The 404 status line, as a string.
pub fn not_found() -> (r: String)
    ensures
        r@ == spec_not_found(),
{
    String::from_str("HTTP/1.1 404 NOT FOUND\r\n\r\n")
}

/// The 500 status line, as a string.
pub fn internal_error() -> (r: String)
    ensures
        r@ == spec_internal_error(),
{
    String::from_str("HTTP/1.1 500 INTERNAL_SERVER_ERROR\r\n\r\n")
}

/// Index of the first blank line (`\r\n\r\n`) in a request, or its length
/// if there is none.
pub open spec fn find_blank_from(r: Seq<char>, i: int) -> int
    decreases r.len() - i,
{
    if i < 0 || i + 4 > r.len() {
        r.len() as int
    } else if spec_match_at(r, i, "\r\n\r\n"@) {
        i
    } else {
        find_blank_from(r, i + 1)
    }
}

/// The request body: everything after the first blank line, or the whole
/// text when no blank line occurs.
pub open spec fn spec_body_of(r: Seq<char>) -> Seq<char> {
    let i = find_blank_from(r, 0);
    if i == r.len() {
        r
    } else {
        r.subrange(i + 4, r.len() as int)
    }
}

/// Slices the body out of the raw request text.
pub fn body_of(request: &str) -> (r: &str)
    ensures
        r@ == spec_body_of(request@),
{
    proof {
        reveal_strlit("\r\n\r\n");
    }
    let n = request.unicode_len();
    let mut i: usize = 0;
    while n >= 4 && i <= n - 4
        invariant
            i <= n,
            n == request@.len(),
            find_blank_from(request@, 0) == find_blank_from(request@, i as int),
        decreases n - i,
    {
        if match_at(request, i, "\r\n\r\n") {
            assert(find_blank_from(request@, i as int) == i);
            return request.substring_char(i + 4, n);
        }
        assert(find_blank_from(request@, i as int) == find_blank_from(request@, i + 1));
        i += 1;
    }
    assert(find_blank_from(request@, i as int) == n);
    request
}

/// Decodes the user record in a request body.
pub fn get_user_from_request_body(request: &str) -> (r: Option<User>)
    ensures
        match r {
            None => spec_parse_user(spec_body_of(request@)) is None,
            Some(u) => spec_parse_user(spec_body_of(request@)) == Some(u@),
        },
{
    let body = body_of(request);
    parse_user(body)
}

/// Glues a status line and a body into the bytes written back to the client.
pub fn compose_response(status: &str, content: &str) -> (r: String)
    ensures
        r@ == status@ + content@,
{
    String::from_str(status).concat(content)
}

/// The response to a create request: 200 `User Created` when the body
/// parsed, the store connection succeeded and the insert ran; the one
/// conflated 500 `Error` otherwise.
pub open spec fn spec_create_response(parsed: bool, connected: bool, executed: bool) -> (
    Seq<char>,
    Seq<char>,
) {
    if parsed && connected && executed {
        (spec_ok_response(), "User Created"@)
    } else {
        (spec_internal_error(), "Error"@)
    }
}

/// Maps the create-path outcomes to the response pair.
pub fn create_response(parsed: bool, connected: bool, executed: bool) -> (r: (String, String))
    ensures
        r.0@ == spec_create_response(parsed, connected, executed).0,
        r.1@ == spec_create_response(parsed, connected, executed).1,
{
    if parsed && connected && executed {
        (ok_response(), String::from_str("User Created"))
    } else {
        (internal_error(), String::from_str("Error"))
    }
}

/// The response to a get-one request: a bad identifier and a failed
/// connection are each 500, a missing row 404, and a fetched row is
/// answered with its JSON object.
pub open spec fn spec_get_one_response(
    id_ok: bool,
    connected: bool,
    row: Option<UserView>,
) -> (Seq<char>, Seq<char>) {
    if !id_ok {
        (spec_internal_error(), "Invalid ID"@)
    } else if !connected {
        (spec_internal_error(), "Database error"@)
    } else {
        match row {
            Some(u) => (spec_ok_response(), spec_user_json(u)),
            None => (spec_not_found(), "User not found"@),
        }
    }
}

/// Maps the get-one outcomes to the response pair.
pub fn get_one_response(id_ok: bool, connected: bool, row: Option<&User>) -> (r: (String, String))
    ensures
        ({
            let rv = match row {
                Some(u) => Some(u@),
                None => None,
            };
            r.0@ == spec_get_one_response(id_ok, connected, rv).0 && r.1@
                == spec_get_one_response(id_ok, connected, rv).1
        }),
{
    if !id_ok {
        (internal_error(), String::from_str("Invalid ID"))
    } else if !connected {
        (internal_error(), String::from_str("Database error"))
    } else {
        match row {
            Some(u) => (ok_response(), user_to_json(u)),
            None => (not_found(), String::from_str("User not found")),
        }
    }
}

/// The response to a get-all request: the JSON array of the rows, or 500
/// when the store could not be read.
pub open spec fn spec_get_all_response(rows: Option<Seq<UserView>>) -> (Seq<char>, Seq<char>) {
    match rows {
        Some(us) => (spec_ok_response(), spec_users_json(us)),
        None => (spec_internal_error(), "Database error"@),
    }
}

/// Maps the get-all outcome to the response pair.
pub fn get_all_response(rows: Option<&Vec<User>>) -> (r: (String, String))
    ensures
        ({
            let rv = match rows {
                Some(us) => Some(us@.map_values(|u: User| u@)),
                None => None,
            };
            r.0@ == spec_get_all_response(rv).0 && r.1@ == spec_get_all_response(rv).1
        }),
{
    match rows {
        Some(us) => (ok_response(), users_to_json(us)),
        None => (internal_error(), String::from_str("Database error")),
    }
}

/// The response to a delete request: a bad identifier and a failed
/// connection or statement are each 500, zero affected rows 404, and any
/// deleted row 200 `User Deleted`.
pub open spec fn spec_delete_response(
    id_ok: bool,
    connected: bool,
    rows_affected: Option<u64>,
) -> (Seq<char>, Seq<char>) {
    if !id_ok {
        (spec_internal_error(), "Invalid ID"@)
    } else if !connected {
        (spec_internal_error(), "Database error"@)
    } else {
        match rows_affected {
            None => (spec_internal_error(), "Database error"@),
            Some(n) => if n == 0 {
                (spec_not_found(), "User not found"@)
            } else {
                (spec_ok_response(), "User Deleted"@)
            },
        }
    }
}

/// Maps the delete outcomes to the response pair.
pub fn delete_response(id_ok: bool, connected: bool, rows_affected: Option<u64>) -> (r: (
    String,
    String,
))
    ensures
        r.0@ == spec_delete_response(id_ok, connected, rows_affected).0,
        r.1@ == spec_delete_response(id_ok, connected, rows_affected).1,
{
    if !id_ok {
        (internal_error(), String::from_str("Invalid ID"))
    } else if !connected {
        (internal_error(), String::from_str("Database error"))
    } else {
        match rows_affected {
            None => (internal_error(), String::from_str("Database error")),
            Some(n) => if n == 0 {
                (not_found(), String::from_str("User not found"))
            } else {
                (ok_response(), String::from_str("User Deleted"))
            },
        }
    }
}

/// What a create request does to the table and answers: a body that decodes
/// to a user appends a row under the next serial identifier (any `id` in the
/// body is ignored); any other body changes nothing and is answered 500
/// `Error`.
pub open spec fn spec_post_outcome(
    req: Seq<char>,
    rows0: Seq<UserView>,
    next0: int,
    rows1: Seq<UserView>,
    next1: int,
    status: Seq<char>,
    body: Seq<char>,
) -> bool {
    match spec_parse_user(spec_body_of(req)) {
        None => status == spec_internal_error() && body == "Error"@ && rows1 == rows0 && next1
            == next0,
        Some(uv) => status == spec_ok_response() && body == "User Created"@ && next1 == next0 + 1
            && rows1 == rows0.push(
            UserView { id: Some(next0 as i32), name: uv.name, email: uv.email },
        ),
    }
}

/// What a get-one request answers over the given rows.
pub open spec fn spec_get_one_outcome(
    req: Seq<char>,
    rows: Seq<UserView>,
    status: Seq<char>,
    body: Seq<char>,
) -> bool {
    match spec_parse_i32(spec_get_id(req)) {
        None => status == spec_internal_error() && body == "Invalid ID"@,
        Some(id) => match spec_lookup(rows, id) {
            None => status == spec_not_found() && body == "User not found"@,
            Some(uv) => status == spec_ok_response() && body == spec_user_json(uv),
        },
    }
}

/// What a delete request does to the table and answers: a present
/// identifier removes exactly its row; an absent one changes nothing.
pub open spec fn spec_delete_outcome(
    req: Seq<char>,
    rows0: Seq<UserView>,
    rows1: Seq<UserView>,
    status: Seq<char>,
    body: Seq<char>,
) -> bool {
    match spec_parse_i32(spec_get_id(req)) {
        None => status == spec_internal_error() && body == "Invalid ID"@ && rows1 == rows0,
        Some(id) => if has_id(rows0, id) {
            status == spec_ok_response() && body == "User Deleted"@ && exists|k: int|
                0 <= k < rows0.len() && rows0[k].id == Some(id) && rows1 == #[trigger] rows0.remove(
                    k,
                )
        } else {
            status == spec_not_found() && body == "User not found"@ && rows1 == rows0
        },
    }
}

/// Handles `POST /users`: decodes the body and inserts the row.
pub fn handle_post_request(request: &str, table: &mut UserTable) -> (r: (String, String))
    requires
        old(table).wf(),
        old(table).next() < i32::MAX,
    ensures
        final(table).wf(),
        spec_post_outcome(
            request@,
            old(table).rows(),
            old(table).next(),
            final(table).rows(),
            final(table).next(),
            r.0@,
            r.1@,
        ),
{
    match get_user_from_request_body(request) {
        Some(user) => {
            table.insert(user.name, user.email);
            create_response(true, true, true)
        },
        None => create_response(false, true, true),
    }
}

/// Handles `GET /users/{id}`: parses the identifier and fetches its row.
pub fn handle_get_request(request: &str, table: &UserTable) -> (r: (String, String))
    requires
        table.wf(),
    ensures
        spec_get_one_outcome(request@, table.rows(), r.0@, r.1@),
{
    let id_str = get_id(request);
    match parse_i32(id_str) {
        None => get_one_response(false, true, None),
        Some(id) => {
            let row = table.get_one(id);
            match row {
                Some(u) => get_one_response(true, true, Some(&u)),
                None => get_one_response(true, true, None),
            }
        },
    }
}

/// Handles `GET /users`: serialises every row, in order.
pub fn handle_get_all_request(_request: &str, table: &UserTable) -> (r: (String, String))
    ensures
        r.0@ == spec_ok_response(),
        r.1@ == spec_users_json(table.rows()),
{
    get_all_response(Some(table.all()))
}

/// Handles `DELETE /users/{id}`: parses the identifier and removes its row.
pub fn handle_delete_request(request: &str, table: &mut UserTable) -> (r: (String, String))
    requires
        old(table).wf(),
    ensures
        final(table).wf(),
        final(table).next() == old(table).next(),
        spec_delete_outcome(request@, old(table).rows(), final(table).rows(), r.0@, r.1@),
{
    let id_str = get_id(request);
    match parse_i32(id_str) {
        None => delete_response(false, true, Some(1)),
        Some(id) => {
            let deleted = table.delete(id);
            if deleted {
                delete_response(true, true, Some(1))
            } else {
                delete_response(true, true, Some(0))
            }
        },
    }
}

/// Routes one request text to its handler and returns the status line and
/// body to write back; an unknown path or method is answered 404
/// `Not Found` and changes nothing.
pub fn handle_request(request: &str, table: &mut UserTable) -> (r: (String, String))
    requires
        old(table).wf(),
        old(table).next() < i32::MAX,
    ensures
        final(table).wf(),
        match spec_route(request@) {
            Route::Create => spec_post_outcome(
                request@,
                old(table).rows(),
                old(table).next(),
                final(table).rows(),
                final(table).next(),
                r.0@,
                r.1@,
            ),
            Route::GetOne => spec_get_one_outcome(request@, final(table).rows(), r.0@, r.1@)
                && *final(table) == *old(table),
            Route::GetAll => r.0@ == spec_ok_response() && r.1@ == spec_users_json(
                final(table).rows(),
            ) && *final(table) == *old(table),
            Route::Delete => spec_delete_outcome(
                request@,
                old(table).rows(),
                final(table).rows(),
                r.0@,
                r.1@,
            ) && final(table).next() == old(table).next(),
            Route::NotFound => r.0@ == spec_not_found() && r.1@ == "Not Found"@ && *final(table)
                == *old(table),
        },
{
    match route(request) {
        Route::Create => handle_post_request(request, table),
        Route::GetOne => handle_get_request(request, table),
        Route::GetAll => handle_get_all_request(request, table),
        Route::Delete => handle_delete_request(request, table),
        Route::NotFound => (not_found(), String::from_str("Not Found")),
    }
}

} // verus!
