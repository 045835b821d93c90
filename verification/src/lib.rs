//! A minimal HTTP CRUD service over a single `users` table, with the
//! request-line routing, identifier extraction, JSON encoding and decoding of
//! the `User` record, and the handler decision logic verified.
//!
//! Network and database I/O live outside the library; the handlers here run
//! against an in-memory model of the store that assigns serial identifiers,
//! and pure decision functions map store outcomes to HTTP responses.

pub mod handlers;
pub mod json;
pub mod laws;
pub mod num;
pub mod router;
pub mod table;
pub mod text;

use vstd::prelude::*;

verus! {

/// The sole entity: an optional store-assigned identifier, a name and an
/// email address.
pub struct User {
    pub id: Option<i32>,
    pub name: String,
    pub email: String,
}

/// Mathematical image of a [`User`]: the strings as character sequences.
pub struct UserView {
    pub id: Option<i32>,
    pub name: Seq<char>,
    pub email: Seq<char>,
}

impl View for User {
    type V = UserView;

    open spec fn view(&self) -> UserView {
        UserView { id: self.id, name: self.name@, email: self.email@ }
    }
}

impl User {
    /// A field-for-field copy.
    pub fn duplicate(&self) -> (r: User)
        ensures
            r@ == self@,
    {
        User {
            id: self.id,
            name: self.name.clone(),
            email: self.email.clone(),
        }
    }
}

} // verus!
