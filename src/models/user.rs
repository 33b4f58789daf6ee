use vstd::prelude::*;

use crate::models::meta::Meta;

verus! {

/// A user as listed: names and the audit record.
#[derive(Debug, Clone)]
pub struct User {
    pub meta: Meta,
    pub username: String,
    pub email: String,
}

} // verus!
