use vstd::prelude::*;

verus! {

/// The claims this service adds to an access token.
#[derive(Debug, Clone, Copy, PartialEq, Eq, Structural)]
pub struct CustomClaims {
    pub is_admin: bool,
}

} // verus!
