use vstd::prelude::*;

use crate::db::nova_db::TablesView;
use crate::models::meta::{Meta, Timestamp};

verus! {

/// A session (refresh) token record with its audit record.
#[derive(Debug, Clone)]
pub struct Token {
    pub id: usize,
    pub person: String,
    pub signed_token: Option<String>,
    pub meta: Meta,
}

impl Token {
    /// This value is token `i` of the tables, with its audit record.
    pub open spec fn describes(&self, t: TablesView, i: int) -> bool {
        &&& 0 <= i < t.tokens.len()
        &&& self.id == i
        &&& self.person == t.tokens[i].person
        &&& self.signed_token == t.tokens[i].signed_token
        &&& self.meta == t.metas[t.tokens[i].meta as int]
    }
}

/// A newly issued session token, flattened with its audit stamps.
#[derive(Debug, Clone)]
pub struct TokenRecord {
    pub created_by: String,
    pub created_on: Timestamp,
    pub deleted_on: Option<Timestamp>,
    pub id: usize,
    pub person: String,
    pub meta: usize,
}

/// Stores the signed form of a token.
#[derive(Debug, Clone)]
pub struct SetSignedTokenArgs {
    pub token_id: usize,
    pub signed_token: String,
}

/// The values a new token row is written with.
#[derive(Debug, Clone)]
pub struct InsertTokenArgs {
    pub person: String,
    pub meta: usize,
}

/// A token row as stored, with references only.
#[derive(Debug, Clone)]
pub struct BareToken {
    pub id: usize,
    pub person: String,
    pub meta: usize,
}

/// Selects a token by the text of its id.
#[derive(Debug, Clone)]
pub struct SelectTokenArgs {
    pub id: String,
}

} // verus!
