//! An in-memory model of the `users` table: rows in insertion order, with a
//! serial counter that assigns each new row the next positive identifier.
//!
//! The store behind the service is relational; this type captures exactly the
//! behaviour the handlers rely on — auto-incremented unique identifiers,
//! lookup by identifier, hard delete — so the handler logic can be verified
//! against it.

use vstd::prelude::*;
use crate::{User, UserView};

verus! {

/// Some row of `rows` carries the identifier `id`.
pub open spec fn has_id(rows: Seq<UserView>, id: i32) -> bool {
    exists|k: int| 0 <= k < rows.len() && rows[k].id == Some(id)
}

/// The identifier of row `k`, as an integer (rows of a well-formed table
/// always carry one).
pub open spec fn row_id(rows: Seq<UserView>, k: int) -> int {
    match rows[k].id {
        Some(i) => i as int,
        None => 0,
    }
}

/// The row carrying `id`, if any.
pub open spec fn spec_lookup(rows: Seq<UserView>, id: i32) -> Option<UserView> {
    if has_id(rows, id) {
        Some(rows[choose|k: int| 0 <= k < rows.len() && rows[k].id == Some(id)])
    } else {
        None
    }
}

/// Table well-formedness: the counter is a positive 32-bit value, every row
/// carries an identifier drawn from `1 .. next`, and no two rows share one.
pub open spec fn table_inv(rows: Seq<UserView>, next: int) -> bool {
    &&& 1 <= next <= i32::MAX
    &&& forall|k: int| 0 <= k < rows.len() ==> rows[k].id is Some
    &&& forall|k: int| 0 <= k < rows.len() ==> 1 <= #[trigger] row_id(rows, k) < next
    &&& forall|k1: int, k2: int|
        0 <= k1 < rows.len() && 0 <= k2 < rows.len() && k1 != k2 ==> #[trigger] row_id(rows, k1)
            != #[trigger] row_id(rows, k2)
}

/// In a well-formed table the row carrying `id` is unique, so any row with
/// that identifier is the one `spec_lookup` returns.
pub proof fn lemma_lookup_unique(rows: Seq<UserView>, next: int, id: i32, k: int)
    requires
        table_inv(rows, next),
        0 <= k < rows.len(),
        rows[k].id == Some(id),
    ensures
        spec_lookup(rows, id) == Some(rows[k]),
{
    let j = choose|j: int| 0 <= j < rows.len() && rows[j].id == Some(id);
    assert(row_id(rows, j) == row_id(rows, k));
}

/// The in-memory users table.
pub struct UserTable {
    users: Vec<User>,
    next_id: i32,
}

impl UserTable {
    /// The rows, as mathematical values, in insertion order.
    pub closed spec fn rows(&self) -> Seq<UserView> {
        self.users@.map_values(|u: User| u@)
    }

    /// The identifier the next insertion will be assigned.
    pub closed spec fn next(&self) -> int {
        self.next_id as int
    }

    /// The table invariant.
    pub open spec fn wf(&self) -> bool {
        table_inv(self.rows(), self.next())
    }

    /// An empty table whose first identifier will be 1.
    pub fn new() -> (r: UserTable)
        ensures
            r.wf(),
            r.rows() == Seq::<UserView>::empty(),
            r.next() == 1,
    {
        let r = UserTable { users: Vec::new(), next_id: 1 };
        proof {
            assert(r.rows() =~= Seq::<UserView>::empty());
        }
        r
    }

    /// Inserts a row with the given name and email; the store assigns the
    /// next serial identifier and returns it.
    pub fn insert(&mut self, name: String, email: String) -> (id: i32)
        requires
            old(self).wf(),
            old(self).next() < i32::MAX,
        ensures
            final(self).wf(),
            id == old(self).next(),
            final(self).next() == old(self).next() + 1,
            final(self).rows() == old(self).rows().push(
                UserView { id: Some(id), name: name@, email: email@ },
            ),
    {
        let id = self.next_id;
        let ghost pre = self.rows();
        let user = User { id: Some(id), name, email };
        let ghost uv = user@;
        self.users.push(user);
        self.next_id = id + 1;
        proof {
            assert(self.rows() =~= pre.push(uv));
            let rows = self.rows();
            assert forall|k: int| 0 <= k < rows.len() implies 1 <= #[trigger] row_id(rows, k)
                < self.next() by {
                if k < pre.len() {
                    assert(row_id(pre, k) == row_id(rows, k));
                }
            }
            assert forall|k1: int, k2: int|
                0 <= k1 < rows.len() && 0 <= k2 < rows.len() && k1 != k2 implies #[trigger] row_id(
                rows,
                k1,
            ) != #[trigger] row_id(rows, k2) by {
                if k1 < pre.len() && k2 < pre.len() {
                    assert(row_id(pre, k1) == row_id(rows, k1));
                    assert(row_id(pre, k2) == row_id(rows, k2));
                } else if k1 < pre.len() {
                    assert(row_id(pre, k1) == row_id(rows, k1));
                    assert(row_id(pre, k1) < old(self).next());
                } else if k2 < pre.len() {
                    assert(row_id(pre, k2) == row_id(rows, k2));
                    assert(row_id(pre, k2) < old(self).next());
                }
            }
        }
        id
    }

    /// Looks up the row with identifier `id`, returning a copy of it.
    pub fn get_one(&self, id: i32) -> (r: Option<User>)
        requires
            self.wf(),
        ensures
            match r {
                None => spec_lookup(self.rows(), id) is None,
                Some(u) => spec_lookup(self.rows(), id) == Some(u@) && u@.id == Some(id),
            },
    {
        let n = self.users.len();
        let mut k: usize = 0;
        while k < n
            invariant
                k <= n,
                n == self.users.len(),
                self.wf(),
                forall|j: int| 0 <= j < k ==> self.rows()[j].id != Some(id),
            decreases n - k,
        {
            let matches_id = match self.users[k].id {
                Some(i) => i == id,
                None => false,
            };
            if matches_id {
                let u = self.users[k].duplicate();
                proof {
                    assert(self.rows()[k as int].id == Some(id));
                    lemma_lookup_unique(self.rows(), self.next(), id, k as int);
                }
                return Some(u);
            }
            k += 1;
        }
        proof {
            assert(!has_id(self.rows(), id));
        }
        None
    }

    /// Removes the row with identifier `id`, if present; reports whether a
    /// row was removed. An absent identifier leaves the table unchanged.
    pub fn delete(&mut self, id: i32) -> (deleted: bool)
        requires
            old(self).wf(),
        ensures
            final(self).wf(),
            final(self).next() == old(self).next(),
            deleted == has_id(old(self).rows(), id),
            !deleted ==> *final(self) == *old(self),
            deleted ==> exists|k: int|
                0 <= k < old(self).rows().len() && old(self).rows()[k].id == Some(id)
                    && final(self).rows() == #[trigger] old(self).rows().remove(k),
    {
        let n = self.users.len();
        let mut k: usize = 0;
        while k < n
            invariant
                k <= n,
                n == self.users.len(),
                self.wf(),
                *self == *old(self),
                forall|j: int| 0 <= j < k ==> self.rows()[j].id != Some(id),
            decreases n - k,
        {
            let matches_id = match self.users[k].id {
                Some(i) => i == id,
                None => false,
            };
            if matches_id {
                let ghost pre = self.rows();
                self.users.remove(k);
                proof {
                    assert(self.rows() =~= pre.remove(k as int));
                    let rows = self.rows();
                    assert forall|j: int| 0 <= j < rows.len() implies rows[j].id is Some && 1
                        <= #[trigger] row_id(rows, j) < self.next() by {
                        if j < k {
                            assert(rows[j] == pre[j]);
                            assert(row_id(pre, j) == row_id(rows, j));
                        } else {
                            assert(rows[j] == pre[j + 1]);
                            assert(row_id(pre, j + 1) == row_id(rows, j));
                        }
                    }
                    assert forall|j1: int, j2: int|
                        0 <= j1 < rows.len() && 0 <= j2 < rows.len() && j1 != j2 implies #[trigger] row_id(
                        rows,
                        j1,
                    ) != #[trigger] row_id(rows, j2) by {
                        let o1 = if j1 < k { j1 } else { j1 + 1 };
                        let o2 = if j2 < k { j2 } else { j2 + 1 };
                        assert(rows[j1] == pre[o1]);
                        assert(rows[j2] == pre[o2]);
                        assert(row_id(pre, o1) == row_id(rows, j1));
                        assert(row_id(pre, o2) == row_id(rows, j2));
                    }
                    assert(pre[k as int].id == Some(id));
                }
                return true;
            }
            k += 1;
        }
        proof {
            assert(!has_id(self.rows(), id));
        }
        false
    }

    /// The rows themselves, for serialisation.
    pub fn all(&self) -> (r: &Vec<User>)
        ensures
            r@.map_values(|u: User| u@) == self.rows(),
    {
        &self.users
    }

    /// How many rows the table holds.
    pub fn len(&self) -> (r: usize)
        ensures
            r == self.rows().len(),
    {
        self.users.len()
    }
}

} // verus!
