//! Request-line routing and path-parameter extraction.
//!
//! Dispatch is literal prefix matching on the raw request text, checked in a
//! fixed order with the more specific `GET /users/` before `GET /users`.
//! The identifier segment is the third `/`-delimited token of the request,
//! trimmed of surrounding whitespace and truncated at the first whitespace
//! character.

use vstd::prelude::*;
use crate::text::{spec_starts_with, starts_with};

verus! {

/// The five dispatch outcomes of the router.
#[derive(PartialEq, Eq, Structural, Clone, Copy, Debug)]
pub enum Route {
    Create,
    GetOne,
    GetAll,
    Delete,
    NotFound,
}

/// Which route a request text selects: first matching prefix wins.
pub open spec fn spec_route(r: Seq<char>) -> Route {
    if spec_starts_with(r, "POST /users"@) {
        Route::Create
    } else if spec_starts_with(r, "GET /users/"@) {
        Route::GetOne
    } else if spec_starts_with(r, "GET /users"@) {
        Route::GetAll
    } else if spec_starts_with(r, "DELETE /users/"@) {
        Route::Delete
    } else {
        Route::NotFound
    }
}

/// Dispatches a request text to its route by prefix matching.
pub fn route(request: &str) -> (r: Route)
    ensures
        r == spec_route(request@),
{
    if starts_with(request, "POST /users") {
        Route::Create
    } else if starts_with(request, "GET /users/") {
        Route::GetOne
    } else if starts_with(request, "GET /users") {
        Route::GetAll
    } else if starts_with(request, "DELETE /users/") {
        Route::Delete
    } else {
        Route::NotFound
    }
}

/// The whitespace characters recognised when trimming the identifier token.
pub open spec fn is_space(c: char) -> bool {
    c == ' ' || c == '\t' || c == '\r' || c == '\n'
}

/// Index of the first occurrence of `c` in `s` at or after `from`,
/// or `s.len()` if there is none.
pub open spec fn find_from(s: Seq<char>, c: char, from: int) -> int
    decreases s.len() - from,
{
    if from < 0 || from >= s.len() {
        s.len() as int
    } else if s[from] == c {
        from
    } else {
        find_from(s, c, from + 1)
    }
}

/// Index of the first whitespace character at or after `from`,
/// or `s.len()` if there is none.
pub open spec fn find_space(s: Seq<char>, from: int) -> int
    decreases s.len() - from,
{
    if from < 0 || from >= s.len() {
        s.len() as int
    } else if is_space(s[from]) {
        from
    } else {
        find_space(s, from + 1)
    }
}

/// Index of the first non-whitespace character at or after `from`,
/// or `s.len()` if there is none.
pub open spec fn skip_space(s: Seq<char>, from: int) -> int
    decreases s.len() - from,
{
    if from < 0 || from >= s.len() {
        s.len() as int
    } else if !is_space(s[from]) {
        from
    } else {
        skip_space(s, from + 1)
    }
}

/// The first whitespace-delimited word of `s`, after skipping leading
/// whitespace; empty if `s` is all whitespace.
pub open spec fn first_word(s: Seq<char>) -> Seq<char> {
    let a = skip_space(s, 0);
    let b = find_space(s, a);
    s.subrange(a, b)
}

/// The identifier segment of a request: the text between the second `/`
/// and the third `/` or the end, reduced to its first word. Empty when the
/// request has fewer than two `/` characters.
pub open spec fn spec_get_id(r: Seq<char>) -> Seq<char> {
    let i1 = find_from(r, '/', 0);
    if i1 == r.len() {
        Seq::<char>::empty()
    } else {
        let i2 = find_from(r, '/', i1 + 1);
        if i2 == r.len() {
            Seq::<char>::empty()
        } else {
            let i3 = find_from(r, '/', i2 + 1);
            first_word(r.subrange(i2 + 1, i3))
        }
    }
}

/// Scans forward for `c` starting at `from`.
fn find_char_from(s: &str, c: char, from: usize) -> (r: usize)
    requires
        from <= s@.len(),
    ensures
        r == find_from(s@, c, from as int),
        from <= r <= s@.len(),
        r < s@.len() ==> s@[r as int] == c,
{
    let n = s.unicode_len();
    let mut j: usize = from;
    while j < n
        invariant
            from <= j <= n,
            n == s@.len(),
            find_from(s@, c, from as int) == find_from(s@, c, j as int),
        decreases n - j,
    {
        if s.get_char(j) == c {
            return j;
        }
        assert(find_from(s@, c, j as int) == find_from(s@, c, j + 1));
        j += 1;
    }
    j
}

/// Scans forward for the first character satisfying (`want_space`) or
/// falsifying (`!want_space`) the whitespace test.
pub(crate) fn scan_space(s: &str, from: usize, want_space: bool) -> (r: usize)
    requires
        from <= s@.len(),
    ensures
        want_space ==> r == find_space(s@, from as int),
        !want_space ==> r == skip_space(s@, from as int),
        from <= r <= s@.len(),
{
    let n = s.unicode_len();
    let mut j: usize = from;
    while j < n
        invariant
            from <= j <= n,
            n == s@.len(),
            want_space ==> find_space(s@, from as int) == find_space(s@, j as int),
            !want_space ==> skip_space(s@, from as int) == skip_space(s@, j as int),
        decreases n - j,
    {
        let ch = s.get_char(j);
        let sp = ch == ' ' || ch == '\t' || ch == '\r' || ch == '\n';
        if sp == want_space {
            return j;
        }
        proof {
            if want_space {
                assert(find_space(s@, j as int) == find_space(s@, j + 1));
            } else {
                assert(skip_space(s@, j as int) == skip_space(s@, j + 1));
            }
        }
        j += 1;
    }
    j
}

/// Extracts the identifier segment from the request text: the third
/// `/`-delimited token, truncated at the first whitespace.
pub fn get_id(request: &str) -> (id: &str)
    ensures
        id@ == spec_get_id(request@),
{
    proof {
        reveal_strlit("");
        assert(""@ =~= Seq::<char>::empty());
    }
    let i1 = find_char_from(request, '/', 0);
    let n = request.unicode_len();
    if i1 == n {
        return "";
    }
    let i2 = find_char_from(request, '/', i1 + 1);
    if i2 == n {
        return "";
    }
    let i3 = find_char_from(request, '/', i2 + 1);
    let seg = request.substring_char(i2 + 1, i3);
    let a = scan_space(seg, 0, false);
    let b = scan_space(seg, a, true);
    seg.substring_char(a, b)
}

} // verus!
