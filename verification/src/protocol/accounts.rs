use vstd::prelude::*;
use crate::extractors::auth::AuthToken;

verus! {

/// What a client sends to register an account or to log into one.
#[derive(Clone, Debug, PartialEq, Eq)]
pub struct RegisterOrLoginRequest {
    pub username: String,
    pub password: String,
}

/// What the client gets back: the token for its further requests.
#[derive(Clone, Copy, Debug, PartialEq, Eq, Structural)]
pub struct RegisterOrLoginResponse {
    pub auth_token: AuthToken,
}

} // verus!
