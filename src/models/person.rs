use vstd::prelude::*;

use crate::db::nova_db::TablesView;
use crate::models::meta::Meta;

verus! {

/// A person, without credentials.
#[derive(Debug, Clone)]
pub struct Person {
    pub id: usize,
    pub username: String,
    pub email: String,
    pub is_admin: bool,
    pub meta: Meta,
}

impl Person {
    /// This value is person `i` of the tables, with its audit record.
    pub open spec fn describes(&self, t: TablesView, i: int) -> bool {
        &&& 0 <= i < t.persons.len()
        &&& self.id == i
        &&& self.username == t.persons[i].username
        &&& self.email == t.persons[i].email
        &&& self.is_admin == t.persons[i].is_admin
        &&& self.meta == t.metas[t.persons[i].meta as int]
    }
}

/// Credentials presented at log in.
#[derive(Debug, Clone)]
pub struct LogInCreds {
    pub email: String,
    pub password: String,
}

/// Credentials presented at sign up.
#[derive(Debug, Clone)]
pub struct SignUpCreds {
    pub username: String,
    pub email: String,
    pub password: String,
}

/// A question: are this email and this username still free?
#[derive(Debug, Clone)]
pub struct PersonCheck {
    pub email: Option<String>,
    pub username: Option<String>,
}

/// The answer to a `PersonCheck`.
#[derive(Debug, Clone, Copy, PartialEq, Eq, Structural)]
pub struct PersonCheckResponse {
    pub email: bool,
    pub username: bool,
}

/// A new person as submitted.
#[derive(Debug, Clone)]
pub struct PostPerson {
    pub username: String,
    pub email: String,
    pub password: String,
}

/// A sign up in progress: the submitted credentials and, once computed, the
/// password hash.
#[derive(Debug, Clone)]
pub struct SignUpState {
    pub username: String,
    pub email: String,
    pub password: String,
    pub pass_hash: Option<String>,
}

/// The values a new person row is written with.
#[derive(Debug, Clone)]
pub struct InsertPersonArgs {
    pub username: String,
    pub email: String,
    pub pass_hash: String,
    pub meta: usize,
}

/// Selects a person by id.
#[derive(Debug, Clone, Copy)]
pub struct SelectPersonArgs {
    pub id: usize,
}

/// What a successful log in returns: the person and an access token.
#[derive(Debug, Clone)]
pub struct LoginResponse {
    pub person: Person,
    pub token: String,
}

/// What a successful refresh returns: a new access token.
#[derive(Debug, Clone)]
pub struct RefreshResponse {
    pub token: String,
}

} // verus!
