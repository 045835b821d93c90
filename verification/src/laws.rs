//! Service-level laws, stated over the spec functions the handler contracts
//! use and proved once and for all.

use vstd::prelude::*;
use crate::UserView;
use crate::handlers::{
    spec_delete_outcome, spec_get_one_outcome, spec_not_found, spec_ok_response,
};
use crate::json::{spec_user_json, spec_users_json, spec_users_json_items};
use crate::num::spec_parse_i32;
use crate::router::spec_get_id;
use crate::table::{has_id, row_id, spec_lookup, table_inv};

verus! {

/// Creating a user appends a row that any later listing shows: the new row
/// carries the given name and email and a store-assigned positive
/// identifier, and the listing body serialises every row of the table in
/// order, the new row included.
pub proof fn lemma_created_user_is_listed(
    rows0: Seq<UserView>,
    next0: int,
    uv: UserView,
    rows1: Seq<UserView>,
)
    requires
        table_inv(rows0, next0),
        rows1 == rows0.push(UserView { id: Some(next0 as i32), name: uv.name, email: uv.email }),
    ensures
        exists|k: int|
            0 <= k < rows1.len() && (#[trigger] rows1[k]).name == uv.name && rows1[k].email
                == uv.email && (rows1[k].id matches Some(i) && i >= 1),
{
    let k = rows0.len() as int;
    assert(rows1[k].name == uv.name && rows1[k].email == uv.email && rows1[k].id == Some(
        next0 as i32,
    ));
}

/// An identifier the store never assigned — zero, negative, or at least the
/// serial counter — is answered 404 `User not found` by get-one.
pub proof fn lemma_get_unassigned_is_not_found(
    req: Seq<char>,
    rows: Seq<UserView>,
    next: int,
    id: i32,
    status: Seq<char>,
    body: Seq<char>,
)
    requires
        table_inv(rows, next),
        id < 1 || id >= next,
        spec_parse_i32(spec_get_id(req)) == Some(id),
        spec_get_one_outcome(req, rows, status, body),
    ensures
        status == spec_not_found(),
        body == "User not found"@,
{
    assert forall|k: int| 0 <= k < rows.len() implies rows[k].id != Some(id) by {
        assert(1 <= row_id(rows, k) < next);
        if rows[k].id == Some(id) {
            assert(row_id(rows, k) == id as int);
        }
    }
    assert(!has_id(rows, id));
}

/// Deleting an existing identifier answers 200 `User Deleted`, and a
/// subsequent get-one for the same identifier is answered 404.
pub proof fn lemma_delete_then_get_not_found(
    req1: Seq<char>,
    req2: Seq<char>,
    rows0: Seq<UserView>,
    next: int,
    rows1: Seq<UserView>,
    id: i32,
    st1: Seq<char>,
    bd1: Seq<char>,
    st2: Seq<char>,
    bd2: Seq<char>,
)
    requires
        table_inv(rows0, next),
        has_id(rows0, id),
        spec_parse_i32(spec_get_id(req1)) == Some(id),
        spec_delete_outcome(req1, rows0, rows1, st1, bd1),
        spec_parse_i32(spec_get_id(req2)) == Some(id),
        spec_get_one_outcome(req2, rows1, st2, bd2),
    ensures
        st1 == spec_ok_response(),
        bd1 == "User Deleted"@,
        st2 == spec_not_found(),
        bd2 == "User not found"@,
{
    let k = choose|k: int|
        0 <= k < rows0.len() && rows0[k].id == Some(id) && rows1 == #[trigger] rows0.remove(k);
    assert forall|j: int| 0 <= j < rows1.len() implies rows1[j].id != Some(id) by {
        let o = if j < k {
            j
        } else {
            j + 1
        };
        assert(rows1[j] == rows0[o]);
        if o != k && rows0[o].id == Some(id) {
            assert(row_id(rows0, o) == row_id(rows0, k));
        }
    }
    assert(!has_id(rows1, id));
}

/// The last row's JSON object stands verbatim in the listing text, just
/// before the closing bracket — so a user appended by create appears in the
/// body that get-all answers with.
pub proof fn lemma_last_row_in_listing_text(rows: Seq<UserView>)
    requires
        rows.len() > 0,
    ensures
        ({
            let l = spec_users_json(rows);
            let uj = spec_user_json(rows.last());
            l.len() >= uj.len() + 2 && l.subrange(l.len() - 1 - uj.len(), l.len() - 1) == uj
        }),
{
    let items = spec_users_json_items(rows);
    let uj = spec_user_json(rows.last());
    if rows.len() == 1 {
        assert(rows[0] == rows.last());
        assert(items == uj);
    }
    assert(items.len() >= uj.len());
    assert(items.subrange(items.len() - uj.len(), items.len() as int) =~= uj);
    let l = spec_users_json(rows);
    assert(l.subrange(l.len() - 1 - uj.len(), l.len() - 1) =~= uj);
}

/// Listing an empty table yields exactly the empty JSON array.
pub proof fn lemma_empty_listing()
    ensures
        spec_users_json(Seq::<UserView>::empty()) == "[]"@,
{
    reveal_strlit("[]");
    assert(spec_users_json(Seq::<UserView>::empty()) =~= "[]"@);
}

} // verus!
